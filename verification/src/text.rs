//! Text as sequences of characters: trimming, splitting, ordering, and the
//! decimal notation used in status files and command lines.

use vstd::prelude::*;
use vstd::utf8::*;

verus! {

/// The characters of a string.
pub type Text = Seq<char>;

/// `String::push` appends one character at the end of the string.
pub assume_specification[ String::push ](s: &mut String, c: char)
    ensures
        final(s)@ == old(s)@.push(c),
;

/// What `String::from_utf8_lossy` makes of a byte sequence: its UTF-8 reading,
/// with every ill-formed stretch replaced by U+FFFD.
pub uninterp spec fn lossy_text(bytes: Seq<u8>) -> Seq<char>;

/// Calls `String::from_utf8_lossy`, whose result depends on the bytes alone,
/// and which leaves well-formed UTF-8 as it is.
#[verifier::external_body]
pub(crate) fn decode_lossy(bytes: &Vec<u8>) -> (r: String)
    ensures
        r@ == lossy_text(bytes@),
        valid_utf8(bytes@) ==> r@ == decode_utf8(bytes@),
{
    String::from_utf8_lossy(bytes).into_owned()
}

/// Calls `String::from_utf8`, which takes exactly the byte sequences that are
/// well-formed UTF-8, and gives the text that they encode.
#[verifier::external_body]
pub(crate) fn decode_strict(bytes: Vec<u8>) -> (r: Option<String>)
    ensures
        match r {
            Some(s) => valid_utf8(bytes@) && s@ == decode_utf8(bytes@),
            None => !valid_utf8(bytes@),
        },
{
    String::from_utf8(bytes).ok()
}

/// The characters of each of several strings.
pub open spec fn texts(v: Seq<String>) -> Seq<Text> {
    v.map_values(|s: String| s@)
}

/// The characters of each of several pairs of strings.
pub open spec fn pairs(v: Seq<(String, String)>) -> Seq<(Text, Text)> {
    v.map_values(|p: (String, String)| (p.0@, p.1@))
}

/// Whether two strings hold the same characters.
pub fn same(a: &str, b: &str) -> (r: bool)
    ensures
        r == (a@ == b@),
{
    let x = a.as_bytes();
    let y = b.as_bytes();
    proof {
        encode_utf8_decode_utf8(a@);
        encode_utf8_decode_utf8(b@);
    }
    if x.len() != y.len() {
        return false;
    }
    let mut i: usize = 0;
    while i < x.len()
        invariant
            i <= x@.len(),
            x@.len() == y@.len(),
            x@ == encode_utf8(a@),
            y@ == encode_utf8(b@),
            forall|j: int| 0 <= j < i ==> x@[j] == y@[j],
        decreases x@.len() - i,
    {
        if x[i] != y[i] {
            return false;
        }
        i += 1;
    }
    assert(x@ =~= y@);
    true
}

/// The position of `name` among `names`, if it is one of them.
pub fn position(names: &Vec<String>, name: &str) -> (r: Option<usize>)
    ensures
        match r {
            Some(i) => i < names@.len() && names@[i as int]@ == name@ && texts(names@).contains(
                name@,
            ) && forall|j: int| 0 <= j < i ==> names@[j]@ != name@,
            None => !texts(names@).contains(name@),
        },
{
    let mut i: usize = 0;
    while i < names.len()
        invariant
            i <= names@.len(),
            forall|j: int| 0 <= j < i ==> names@[j]@ != name@,
        decreases names@.len() - i,
    {
        if same(names[i].as_str(), name) {
            assert(texts(names@)[i as int] == name@);
            return Some(i);
        }
        i += 1;
    }
    assert forall|j: int| 0 <= j < texts(names@).len() implies texts(names@)[j] != name@ by {
        assert(texts(names@)[j] == names@[j]@);
    }
    None
}

/// The characters of `s`, one per element.
pub fn to_chars(s: &str) -> (r: Vec<char>)
    ensures
        r@ == s@,
{
    let mut out: Vec<char> = Vec::new();
    for c in it: s.chars()
        invariant
            out@ == it.seq().take(it.index()),
            it.seq() == s@,
    {
        out.push(c);
    }
    out
}

/// The string made of `v[from..to]`.
pub fn from_chars(v: &Vec<char>, from: usize, to: usize) -> (r: String)
    requires
        from <= to <= v@.len(),
    ensures
        r@ == v@.subrange(from as int, to as int),
{
    let mut out = String::new();
    let mut i: usize = from;
    while i < to
        invariant
            from <= i <= to <= v@.len(),
            out@ == v@.subrange(from as int, i as int),
        decreases to - i,
    {
        out.push(v[i]);
        i += 1;
        assert(v@.subrange(from as int, i as int) =~= v@.subrange(from as int, i - 1).push(
            v@[i - 1],
        ));
    }
    out
}

// ---------------------------------------------------------------------------
// White space
// ---------------------------------------------------------------------------

/// The characters with the Unicode `White_Space` property.
pub open spec fn is_space(c: char) -> bool {
    ||| '\u{9}' <= c <= '\u{d}'
    ||| c == '\u{20}'
    ||| c == '\u{85}'
    ||| c == '\u{a0}'
    ||| c == '\u{1680}'
    ||| '\u{2000}' <= c <= '\u{200a}'
    ||| c == '\u{2028}'
    ||| c == '\u{2029}'
    ||| c == '\u{202f}'
    ||| c == '\u{205f}'
    ||| c == '\u{3000}'
}

fn is_space_char(c: char) -> (r: bool)
    ensures
        r == is_space(c),
{
    ('\u{9}' <= c && c <= '\u{d}') || c == '\u{20}' || c == '\u{85}' || c == '\u{a0}' || c
        == '\u{1680}' || ('\u{2000}' <= c && c <= '\u{200a}') || c == '\u{2028}' || c == '\u{2029}'
        || c == '\u{202f}' || c == '\u{205f}' || c == '\u{3000}'
}

/// `s` without its leading white space.
pub open spec fn trim_front(s: Text) -> Text
    decreases s.len(),
{
    if s.len() > 0 && is_space(s[0]) {
        trim_front(s.skip(1))
    } else {
        s
    }
}

/// `s` without its trailing white space.
pub open spec fn trim_back(s: Text) -> Text
    decreases s.len(),
{
    if s.len() > 0 && is_space(s.last()) {
        trim_back(s.drop_last())
    } else {
        s
    }
}

/// `s` without white space at either end.
pub open spec fn trimmed(s: Text) -> Text {
    trim_back(trim_front(s))
}

/// `s` without leading and trailing white space.
pub fn trim(s: &str) -> (r: String)
    ensures
        r@ == trimmed(s@),
{
    let v = to_chars(s);
    let mut a: usize = 0;
    assert(s@.skip(0) =~= s@);
    while a < v.len() && is_space_char(v[a])
        invariant
            a <= v@.len(),
            v@ == s@,
            trim_front(s@) == trim_front(s@.skip(a as int)),
        decreases v@.len() - a,
    {
        assert(s@.skip(a as int).skip(1) =~= s@.skip(a + 1));
        a += 1;
    }
    let ghost body = s@.skip(a as int);
    let mut b: usize = v.len();
    assert(body =~= s@.subrange(a as int, b as int));
    while b > a && is_space_char(v[b - 1])
        invariant
            a <= b <= v@.len(),
            v@ == s@,
            trim_back(body) == trim_back(s@.subrange(a as int, b as int)),
        decreases b - a,
    {
        let ghost cur = s@.subrange(a as int, b as int);
        assert(cur.last() == s@[b - 1]);
        assert(cur.drop_last() =~= s@.subrange(a as int, b - 1));
        b -= 1;
    }
    from_chars(&v, a, b)
}

/// A word is read back from the line that holds it.
pub proof fn lemma_trimmed_line(word: Text)
    requires
        word.len() > 0,
        !is_space(word[0]),
        !is_space(word.last()),
    ensures
        trimmed(word) == word,
        trimmed(word + "\n"@) == word,
{
    reveal_strlit("\n");
    let line = word + "\n"@;
    assert(line[0] == word[0]);
    assert(line.last() == '\n');
    assert(line.drop_last() =~= word);
    assert(trim_back(line) == trim_back(word));
}

// ---------------------------------------------------------------------------
// Decimal numbers
// ---------------------------------------------------------------------------

/// The ASCII decimal digits.
pub open spec fn is_digit(c: char) -> bool {
    '0' <= c <= '9'
}

/// The number a digit stands for.
pub open spec fn digit_value(c: char) -> int {
    c as int - '0' as int
}

/// Whether every character is a decimal digit.
pub open spec fn all_digits(s: Text) -> bool {
    forall|i: int| 0 <= i < s.len() ==> is_digit(#[trigger] s[i])
}

/// The number written by the digits of `s`, most significant first.
pub open spec fn digits_value(s: Text) -> int
    decreases s.len(),
{
    if s.len() == 0 {
        0
    } else {
        digits_value(s.drop_last()) * 10 + digit_value(s.last())
    }
}

/// The number a string denotes: digits only, after an optional `+`.
pub open spec fn unsigned_value(s: Text) -> Option<int> {
    let body = if s.len() > 0 && s[0] == '+' {
        s.skip(1)
    } else {
        s
    };
    if body.len() > 0 && all_digits(body) {
        Some(digits_value(body))
    } else {
        None
    }
}

/// The number a string denotes: digits only, after an optional `+` or `-`.
pub open spec fn signed_value(s: Text) -> Option<int> {
    if s.len() > 0 && s[0] == '-' {
        let body = s.skip(1);
        if body.len() > 0 && all_digits(body) {
            Some(-digits_value(body))
        } else {
            None
        }
    } else {
        unsigned_value(s)
    }
}

/// A number if it lies in `lo..=hi`.
pub open spec fn in_range(v: Option<int>, lo: int, hi: int) -> Option<int> {
    match v {
        Some(x) => if lo <= x <= hi {
            Some(x)
        } else {
            None
        },
        None => None,
    }
}

proof fn lemma_digits_bound(s: Text, k: int)
    requires
        all_digits(s),
        0 <= k <= s.len(),
    ensures
        0 <= digits_value(s.take(k)) <= digits_value(s),
    decreases s.len(),
{
    if k == s.len() {
        assert(s.take(k) =~= s);
        if s.len() > 0 {
            lemma_digits_bound(s.drop_last(), s.len() - 1);
            assert(s.drop_last().take(s.len() - 1) =~= s.drop_last());
            assert(is_digit(s[s.len() - 1]));
        }
    } else {
        lemma_digits_bound(s.drop_last(), k);
        assert(s.drop_last().take(k) =~= s.take(k));
        assert(is_digit(s[s.len() - 1]));
    }
}

/// The value of `v[from..]` read as decimal digits, if it is at most `max`.
fn parse_digits(v: &Vec<char>, from: usize, max: u64) -> (r: Option<u64>)
    requires
        from <= v@.len(),
    ensures
        ({
            let body = v@.skip(from as int);
            let val = if body.len() > 0 && all_digits(body) {
                Some(digits_value(body))
            } else {
                None
            };
            match r {
                Some(n) => in_range(val, 0, max as int) == Some(n as int),
                None => in_range(val, 0, max as int) is None,
            }
        }),
{
    let ghost body = v@.skip(from as int);
    if from == v.len() {
        return None;
    }
    let mut acc: u64 = 0;
    let mut i: usize = from;
    while i < v.len()
        invariant
            from <= i <= v@.len(),
            body == v@.skip(from as int),
            acc <= max,
            all_digits(body.take(i - from)),
            acc == digits_value(body.take(i - from)),
        decreases v@.len() - i,
    {
        let c = v[i];
        assert(c == body[i - from]);
        if !('0' <= c && c <= '9') {
            assert(!is_digit(body[i - from]));
            return None;
        }
        let d: u64 = (c as u32 - '0' as u32) as u64;
        let ghost k = i - from;
        assert(body.take(k + 1).drop_last() =~= body.take(k));
        assert(body.take(k + 1).last() == c);
        proof {
            if all_digits(body) {
                lemma_digits_bound(body, k + 1);
            }
        }
        match acc.checked_mul(10) {
            None => {
                return None;
            },
            Some(m) => {
                match m.checked_add(d) {
                    None => {
                        return None;
                    },
                    Some(n) => {
                        if n > max {
                            return None;
                        }
                        acc = n;
                    },
                }
            },
        }
        i += 1;
        assert(all_digits(body.take(k + 1))) by {
            assert forall|j: int| 0 <= j < k + 1 implies is_digit(
                #[trigger] body.take(k + 1)[j],
            ) by {
                if j < k {
                    assert(body.take(k)[j] == body[j]);
                }
            }
        }
    }
    assert(body.take(i - from) =~= body);
    proof {
        lemma_digits_bound(body, body.len() as int);
    }
    Some(acc)
}

/// Reads an unsigned decimal number no greater than `max`.
pub fn parse_unsigned(s: &str, max: u64) -> (r: Option<u64>)
    ensures
        match r {
            Some(n) => in_range(unsigned_value(s@), 0, max as int) == Some(n as int),
            None => in_range(unsigned_value(s@), 0, max as int) is None,
        },
{
    let v = to_chars(s);
    if v.len() > 0 && v[0] == '+' {
        parse_digits(&v, 1, max)
    } else {
        assert(v@.skip(0) =~= v@);
        parse_digits(&v, 0, max)
    }
}

/// Reads a `u32`.
pub fn parse_u32(s: &str) -> (r: Option<u32>)
    ensures
        match r {
            Some(n) => in_range(unsigned_value(s@), 0, u32::MAX as int) == Some(n as int),
            None => in_range(unsigned_value(s@), 0, u32::MAX as int) is None,
        },
{
    match parse_unsigned(s, u32::MAX as u64) {
        Some(n) => Some(n as u32),
        None => None,
    }
}

/// Reads an `i32`.
pub fn parse_i32(s: &str) -> (r: Option<i32>)
    ensures
        match r {
            Some(n) => in_range(signed_value(s@), i32::MIN as int, i32::MAX as int) == Some(
                n as int,
            ),
            None => in_range(signed_value(s@), i32::MIN as int, i32::MAX as int) is None,
        },
{
    let v = to_chars(s);
    if v.len() > 0 && v[0] == '-' {
        proof {
            if all_digits(v@.skip(1)) {
                lemma_digits_bound(v@.skip(1), 0);
            }
        }
        match parse_digits(&v, 1, 2147483648) {
            Some(n) => Some((-(n as i64)) as i32),
            None => None,
        }
    } else {
        proof {
            let body = if v@.len() > 0 && v@[0] == '+' {
                v@.skip(1)
            } else {
                v@
            };
            if all_digits(body) {
                lemma_digits_bound(body, 0);
            }
        }
        match parse_unsigned(s, i32::MAX as u64) {
            Some(n) => Some(n as i32),
            None => None,
        }
    }
}

/// The digit that stands for `d`.
pub open spec fn digit_char(d: int) -> char {
    (d + '0' as int) as char
}

/// The decimal notation of a natural number, without leading zeros.
pub open spec fn decimal(n: nat) -> Text
    decreases n,
{
    if n < 10 {
        seq![digit_char(n as int)]
    } else {
        decimal(n / 10).push(digit_char((n % 10) as int))
    }
}

/// The decimal notation of an integer, with a leading `-` where it is negative.
pub open spec fn signed_decimal(i: int) -> Text {
    if i < 0 {
        "-"@ + decimal((-i) as nat)
    } else {
        decimal(i as nat)
    }
}

/// Writes a number in decimal.
pub fn show(n: u64) -> (r: String)
    ensures
        r@ == decimal(n as nat),
    decreases n,
{
    let last = (n % 10) as u8;
    let c = (last + 48) as char;
    let mut s = if n < 10 {
        String::new()
    } else {
        show(n / 10)
    };
    s.push(c);
    assert(c == digit_char((n % 10) as int));
    assert(n < 10 ==> s@ =~= seq![c]);
    s
}

/// Writes a signed number in decimal.
pub fn show_signed(i: i32) -> (r: String)
    ensures
        r@ == signed_decimal(i as int),
{
    if i < 0 {
        let n = (-(i as i64)) as u64;
        "-".to_string().concat(show(n).as_str())
    } else {
        show(i as u64)
    }
}

/// The decimal notation of a number consists of digits that write it.
pub proof fn lemma_decimal_digits(n: nat)
    ensures
        decimal(n).len() > 0,
        all_digits(decimal(n)),
        digits_value(decimal(n)) == n,
    decreases n,
{
    reveal_with_fuel(digits_value, 2);
    if n < 10 {
        assert(decimal(n).drop_last() =~= Seq::<char>::empty());
    } else {
        lemma_decimal_digits(n / 10);
        assert(decimal(n).drop_last() =~= decimal(n / 10));
        assert forall|i: int| 0 <= i < decimal(n).len() implies is_digit(
            #[trigger] decimal(n)[i],
        ) by {
            if i < decimal(n).len() - 1 {
                assert(decimal(n)[i] == decimal(n / 10)[i]);
            }
        }
    }
}

/// Reading the decimal notation of a number gives the number back, also when
/// the notation is surrounded by nothing but the white space `trim` removes.
pub proof fn decimal_reads_back(n: nat)
    ensures
        unsigned_value(decimal(n)) == Some(n as int),
        signed_value(decimal(n)) == Some(n as int),
        trimmed(decimal(n)) == decimal(n),
        trimmed(decimal(n).push('\n')) == decimal(n),
{
    lemma_decimal_digits(n);
    let d = decimal(n);
    assert(is_digit(d[0]));
    assert(is_digit(d[d.len() - 1]));
    assert(d.push('\n')[0] == d[0]);
    assert(d.push('\n').drop_last() =~= d);
    assert(trim_back(d.push('\n')) == trim_back(d));
}

// ---------------------------------------------------------------------------
// Splitting
// ---------------------------------------------------------------------------

/// The stretches of `s` between the separators: one more than there are
/// separators in it.
pub open spec fn split<A>(s: Seq<A>, sep: A) -> Seq<Seq<A>>
    decreases s.len(),
{
    if s.len() == 0 {
        seq![Seq::<A>::empty()]
    } else {
        let before = split(s.drop_last(), sep);
        if s.last() == sep {
            before.push(Seq::<A>::empty())
        } else {
            before.drop_last().push(before.last().push(s.last()))
        }
    }
}

pub proof fn lemma_split_nonempty<A>(s: Seq<A>, sep: A)
    ensures
        split(s, sep).len() > 0,
    decreases s.len(),
{
    if s.len() > 0 {
        lemma_split_nonempty(s.drop_last(), sep);
    }
}

/// The contents of each of several vectors.
pub open spec fn contents<A>(v: Seq<Vec<A>>) -> Seq<Seq<A>> {
    v.map_values(|x: Vec<A>| x@)
}

/// Splits `v[from..to]` at every `sep`.
pub fn split_chars(v: &Vec<char>, from: usize, to: usize, sep: char) -> (r: Vec<Vec<char>>)
    requires
        from <= to <= v@.len(),
    ensures
        contents(r@) == split(v@.subrange(from as int, to as int), sep),
        r@.len() > 0,
{
    let mut out: Vec<Vec<char>> = Vec::new();
    let mut cur: Vec<char> = Vec::new();
    let mut i: usize = from;
    let ghost all = v@.subrange(from as int, to as int);
    assert(all.take(0) =~= Seq::<char>::empty());
    assert(contents(out@).push(cur@) =~= split(all.take(0), sep));
    while i < to
        invariant
            from <= i <= to <= v@.len(),
            all == v@.subrange(from as int, to as int),
            contents(out@).push(cur@) == split(all.take(i - from), sep),
        decreases to - i,
    {
        let c = v[i];
        let ghost k = i - from;
        let ghost before = contents(out@);
        let ghost was = cur@;
        assert(all.take(k + 1).drop_last() =~= all.take(k));
        assert(all.take(k + 1).last() == c);
        assert(before.push(was).last() == was);
        assert(before.push(was).drop_last() =~= before);
        if c == sep {
            out.push(cur);
            cur = Vec::new();
            assert(cur@ =~= Seq::<char>::empty());
            assert(contents(out@) =~= before.push(was));
        } else {
            cur.push(c);
        }
        i += 1;
    }
    assert(all.take(i - from) =~= all);
    let ghost before = contents(out@);
    let ghost was = cur@;
    out.push(cur);
    assert(contents(out@) =~= before.push(was));
    out
}

/// Splits a byte string at every `sep`.
pub fn split_bytes(v: &Vec<u8>, sep: u8) -> (r: Vec<Vec<u8>>)
    ensures
        contents(r@) == split(v@, sep),
        r@.len() > 0,
{
    let mut out: Vec<Vec<u8>> = Vec::new();
    let mut cur: Vec<u8> = Vec::new();
    let mut i: usize = 0;
    let ghost all = v@;
    assert(all.take(0) =~= Seq::<u8>::empty());
    assert(contents(out@).push(cur@) =~= split(all.take(0), sep));
    while i < v.len()
        invariant
            i <= v@.len(),
            all == v@,
            contents(out@).push(cur@) == split(all.take(i as int), sep),
        decreases v@.len() - i,
    {
        let c = v[i];
        let ghost before = contents(out@);
        let ghost was = cur@;
        assert(all.take(i + 1).drop_last() =~= all.take(i as int));
        assert(all.take(i + 1).last() == c);
        assert(before.push(was).last() == was);
        assert(before.push(was).drop_last() =~= before);
        if c == sep {
            out.push(cur);
            cur = Vec::new();
            assert(cur@ =~= Seq::<u8>::empty());
            assert(contents(out@) =~= before.push(was));
        } else {
            cur.push(c);
        }
        i += 1;
    }
    assert(all.take(i as int) =~= all);
    let ghost before = contents(out@);
    let ghost was = cur@;
    out.push(cur);
    assert(contents(out@) =~= before.push(was));
    out
}

/// The position of the first `c` at or after `from`, if there is one.
pub fn find_char(v: &Vec<char>, from: usize, c: char) -> (r: Option<usize>)
    requires
        from <= v@.len(),
    ensures
        match r {
            Some(i) => v@.skip(from as int).index_of_first(c) == Some(i - from) && from <= i
                < v@.len() && v@[i as int] == c,
            None => v@.skip(from as int).index_of_first(c) is None,
        },
{
    let ghost body = v@.skip(from as int);
    let mut i: usize = from;
    while i < v.len()
        invariant
            from <= i <= v@.len(),
            body == v@.skip(from as int),
            forall|j: int| 0 <= j < i - from ==> body[j] != c,
        decreases v@.len() - i,
    {
        if v[i] == c {
            assert(body[i - from] == c);
            proof {
                body.index_of_first_ensures(c);
            }
            return Some(i);
        }
        i += 1;
    }
    proof {
        body.index_of_first_ensures(c);
    }
    None
}

/// The position of the last `c`, if there is one.
pub fn rfind_char(v: &Vec<char>, c: char) -> (r: Option<usize>)
    ensures
        match r {
            Some(i) => v@.index_of_last(c) == Some(i as int) && i < v@.len() && v@[i as int] == c,
            None => v@.index_of_last(c) is None,
        },
{
    let mut i: usize = v.len();
    while i > 0
        invariant
            i <= v@.len(),
            forall|j: int| i <= j < v@.len() ==> v@[j] != c,
        decreases i,
    {
        if v[i - 1] == c {
            proof {
                v@.index_of_last_ensures(c);
            }
            return Some(i - 1);
        }
        i -= 1;
    }
    proof {
        v@.index_of_last_ensures(c);
    }
    None
}

/// `s` without `prefix`, if it starts with it.
pub open spec fn stripped(s: Text, prefix: Text) -> Option<Text> {
    if prefix.len() <= s.len() && s.take(prefix.len() as int) == prefix {
        Some(s.skip(prefix.len() as int))
    } else {
        None
    }
}

/// Whether `v` starts with the characters of `prefix`.
pub fn starts_with(v: &Vec<char>, prefix: &str) -> (r: bool)
    ensures
        r == (prefix@.len() <= v@.len() && v@.take(prefix@.len() as int) == prefix@),
{
    let p = to_chars(prefix);
    if p.len() > v.len() {
        return false;
    }
    let mut i: usize = 0;
    while i < p.len()
        invariant
            i <= p@.len() <= v@.len(),
            p@ == prefix@,
            forall|j: int| 0 <= j < i ==> v@[j] == p@[j],
        decreases p@.len() - i,
    {
        if v[i] != p[i] {
            assert(v@.take(prefix@.len() as int)[i as int] != prefix@[i as int]);
            return false;
        }
        i += 1;
    }
    assert(v@.take(prefix@.len() as int) =~= prefix@);
    true
}

/// Whether `s` holds the character `c`.
pub fn has_char(s: &str, c: char) -> (r: bool)
    ensures
        r == s@.contains(c),
{
    let v = to_chars(s);
    let mut i: usize = 0;
    while i < v.len()
        invariant
            i <= v@.len(),
            v@ == s@,
            forall|j: int| 0 <= j < i ==> v@[j] != c,
        decreases v@.len() - i,
    {
        if v[i] == c {
            return true;
        }
        i += 1;
    }
    false
}

// ---------------------------------------------------------------------------
// Order
// ---------------------------------------------------------------------------

/// The lexicographic order by code point, which is also the order of the
/// UTF-8 encodings.
pub open spec fn text_lt(a: Text, b: Text) -> bool
    decreases a.len(),
{
    if b.len() == 0 {
        false
    } else if a.len() == 0 {
        true
    } else if a[0] != b[0] {
        a[0] < b[0]
    } else {
        text_lt(a.skip(1), b.skip(1))
    }
}

/// Of two different texts exactly one comes first.
pub proof fn text_lt_total(a: Text, b: Text)
    ensures
        a != b ==> (text_lt(a, b) <==> !text_lt(b, a)),
        !text_lt(a, a),
    decreases a.len(),
{
    if a.len() > 0 {
        text_lt_total(a.skip(1), a.skip(1));
    }
    if a.len() == 0 || b.len() == 0 {
        if a.len() == b.len() {
            assert(a =~= b);
        }
    } else if a[0] == b[0] {
        text_lt_total(a.skip(1), b.skip(1));
        if a.skip(1) == b.skip(1) {
            assert(a =~= seq![a[0]] + a.skip(1));
            assert(b =~= seq![b[0]] + b.skip(1));
        }
    }
}

/// The order is transitive.
pub proof fn text_lt_transitive(a: Text, b: Text, c: Text)
    requires
        text_lt(a, b),
        text_lt(b, c),
    ensures
        text_lt(a, c),
    decreases a.len(),
{
    if a.len() > 0 && a[0] == b[0] && b[0] == c[0] {
        text_lt_transitive(a.skip(1), b.skip(1), c.skip(1));
    }
}

/// Whether `a` comes before `b`.
pub fn comes_before(a: &str, b: &str) -> (r: bool)
    ensures
        r == text_lt(a@, b@),
{
    let x = to_chars(a);
    let y = to_chars(b);
    let mut i: usize = 0;
    assert(x@.skip(0) =~= x@);
    assert(y@.skip(0) =~= y@);
    while i < x.len() && i < y.len()
        invariant
            i <= x@.len(),
            i <= y@.len(),
            x@ == a@,
            y@ == b@,
            text_lt(a@, b@) == text_lt(x@.skip(i as int), y@.skip(i as int)),
        decreases x@.len() - i,
    {
        let ghost p = x@.skip(i as int);
        let ghost q = y@.skip(i as int);
        assert(p[0] == x@[i as int]);
        assert(q[0] == y@[i as int]);
        if x[i] != y[i] {
            return x[i] < y[i];
        }
        assert(p.skip(1) =~= x@.skip(i + 1));
        assert(q.skip(1) =~= y@.skip(i + 1));
        i += 1;
    }
    i < y.len()
}

// ---------------------------------------------------------------------------
// Laws
// ---------------------------------------------------------------------------

/// Trimming takes white space off both ends and nothing else: what is left
/// neither begins nor ends with white space, and stands in the text between two
/// stretches of white space.
pub proof fn trimming_removes_only_space(s: Text)
    ensures
        trimmed(s).len() > 0 ==> !is_space(trimmed(s)[0]) && !is_space(trimmed(s).last()),
        exists|a: int, b: int|
            #![trigger s.subrange(a, b)]
            {
                &&& 0 <= a <= b <= s.len()
                &&& trimmed(s) == s.subrange(a, b)
                &&& forall|i: int| 0 <= i < a ==> is_space(#[trigger] s[i])
                &&& forall|i: int| b <= i < s.len() ==> is_space(#[trigger] s[i])
            },
{
    let a = lemma_trim_front(s);
    let t = trim_front(s);
    let n = lemma_trim_back(t);
    assert(s.subrange(a, a + n) =~= t.take(n));
    assert forall|i: int| a + n <= i < s.len() implies is_space(#[trigger] s[i]) by {
        assert(t[i - a] == s[i]);
    }
    if n > 0 {
        assert(t.take(n)[0] == t[0]);
        assert(t.take(n).last() == t[n - 1]);
    }
}

proof fn lemma_trim_front(s: Text) -> (a: int)
    ensures
        0 <= a <= s.len(),
        trim_front(s) == s.skip(a),
        a < s.len() ==> !is_space(s[a]),
        forall|i: int| 0 <= i < a ==> is_space(#[trigger] s[i]),
    decreases s.len(),
{
    if s.len() > 0 && is_space(s[0]) {
        let b = lemma_trim_front(s.skip(1));
        assert(s.skip(1).skip(b) =~= s.skip(b + 1));
        assert forall|i: int| 0 <= i < b + 1 implies is_space(#[trigger] s[i]) by {
            if i > 0 {
                assert(s.skip(1)[i - 1] == s[i]);
            }
        }
        b + 1
    } else {
        assert(s.skip(0) =~= s);
        0
    }
}

proof fn lemma_trim_back(s: Text) -> (n: int)
    ensures
        0 <= n <= s.len(),
        trim_back(s) == s.take(n),
        n > 0 ==> !is_space(s[n - 1]),
        forall|i: int| n <= i < s.len() ==> is_space(#[trigger] s[i]),
    decreases s.len(),
{
    if s.len() > 0 && is_space(s.last()) {
        let n = lemma_trim_back(s.drop_last());
        assert(s.drop_last().take(n) =~= s.take(n));
        assert forall|i: int| n <= i < s.len() implies is_space(#[trigger] s[i]) by {
            if i < s.len() - 1 {
                assert(s.drop_last()[i] == s[i]);
            }
        }
        n
    } else {
        assert(s.take(s.len() as int) =~= s);
        s.len() as int
    }
}

/// White space is what Unicode takes for it: in ASCII the blank and the controls
/// from tab to carriage return, so that no character that prints there is white
/// space; beyond it the next-line control and the blanks and separators of other
/// widths.
pub proof fn white_space_is_unicode_white_space(c: char)
    ensures
        is_space(c) <==> {
            let n = c as int;
            9 <= n <= 13 || n == 32 || n == 0x85 || n == 0xa0 || n == 0x1680 || 0x2000 <= n
                <= 0x200a || n == 0x2028 || n == 0x2029 || n == 0x202f || n == 0x205f || n == 0x3000
        },
        '!' <= c <= '~' ==> !is_space(c),
{
}

/// A number is taken exactly where it lies between the bounds, and unchanged.
pub proof fn ranges_hold_their_bounds(v: int, lo: int, hi: int)
    ensures
        lo <= v <= hi ==> in_range(Some(v), lo, hi) == Some(v),
        v < lo || v > hi ==> in_range(Some(v), lo, hi) is None,
        in_range(None, lo, hi) is None,
{
}

/// Digits have their places: the value of one run of digits before another is
/// that of the first, moved up by a place for every digit of the second, and
/// that of the second. A single digit is worth the distance from `0`.
pub proof fn digits_have_places(a: Text, b: Text, c: char)
    ensures
        digits_value(seq![c]) == c as int - '0' as int,
        digits_value(Seq::<char>::empty()) == 0,
        digits_value(a + b) == digits_value(a) * vstd::arithmetic::power::pow(10, b.len())
            + digits_value(b),
    decreases b.len(),
{
    reveal_with_fuel(digits_value, 2);
    assert(seq![c].drop_last() =~= Seq::<char>::empty());
    vstd::arithmetic::power::lemma_pow0(10);
    if b.len() == 0 {
        assert(a + b =~= a);
    } else {
        digits_have_places(a, b.drop_last(), c);
        assert((a + b).drop_last() =~= a + b.drop_last());
        assert((a + b).last() == b.last());
        let p = vstd::arithmetic::power::pow(10, (b.len() - 1) as nat);
        vstd::arithmetic::power::lemma_pow_adds(10, (b.len() - 1) as nat, 1);
        vstd::arithmetic::power::lemma_pow1(10);
        assert((digits_value(a) * p + digits_value(b.drop_last())) * 10 == digits_value(a) * (p
            * 10) + digits_value(b.drop_last()) * 10) by (nonlinear_arith);
    }
}

/// A number is written by digits alone, one at least, after a sign or none: any
/// other character, an empty text and a sign alone denote nothing. The sign `+`
/// changes nothing, `-` turns the number round.
pub proof fn numbers_are_digits_after_a_sign(d: Text)
    ensures
        (d.len() > 0 && forall|i: int| 0 <= i < d.len() ==> '0' <= #[trigger] d[i] <= '9') ==> {
            &&& unsigned_value(d) == Some(digits_value(d))
            &&& unsigned_value(seq!['+'] + d) == Some(digits_value(d))
            &&& signed_value(d) == Some(digits_value(d))
            &&& signed_value(seq!['+'] + d) == Some(digits_value(d))
            &&& signed_value(seq!['-'] + d) == Some(-digits_value(d))
        },
        unsigned_value(seq!['-'] + d) is None,
        (d.len() == 0 || exists|i: int| 0 <= i < d.len() && !('0' <= #[trigger] d[i] <= '9')) ==> {
            &&& unsigned_value(seq!['+'] + d) is None
            &&& signed_value(seq!['+'] + d) is None
            &&& signed_value(seq!['-'] + d) is None
            &&& (d.len() == 0 || (d[0] != '+' && d[0] != '-')) ==> unsigned_value(d) is None
                && signed_value(d) is None
        },
{
    let plus = seq!['+'] + d;
    let minus = seq!['-'] + d;
    assert(plus.skip(1) =~= d);
    assert(minus.skip(1) =~= d);
    assert(minus[0] == '-');
    assert(plus[0] == '+');
    assert(!is_digit('-') && !is_digit('+'));
    if d.len() > 0 && forall|i: int| 0 <= i < d.len() ==> '0' <= #[trigger] d[i] <= '9' {
        assert(all_digits(d));
        assert('0' <= d[0] <= '9');
    } else if d.len() > 0 {
        let i = choose|i: int| 0 <= i < d.len() && !('0' <= #[trigger] d[i] <= '9');
        assert(!is_digit(d[i]));
    }
}

/// A number is written without idle zeros: the notation begins with `0` for the
/// number zero alone.
pub proof fn decimals_begin_with_no_zero(n: nat)
    ensures
        decimal(n).len() > 0,
        decimal(n)[0] == '0' <==> n == 0,
        n == 0 ==> decimal(n) == seq!['0'],
        signed_decimal(n as int) == decimal(n),
        n > 0 ==> signed_decimal(-(n as int)) == seq!['-'] + decimal(n),
    decreases n,
{
    reveal_strlit("-");
    assert("-"@ =~= seq!['-']);
    if n >= 10 {
        decimals_begin_with_no_zero(n / 10);
        assert(decimal(n)[0] == decimal(n / 10)[0]);
    }
}

/// A text without the separator is one part; the parts around a separator are
/// those of what stands before it and those of what stands behind it.
pub proof fn separators_part_texts<A>(a: Seq<A>, b: Seq<A>, sep: A)
    ensures
        !a.contains(sep) ==> split(a, sep) == seq![a],
        split(a.push(sep) + b, sep) == split(a, sep) + split(b, sep),
    decreases a.len() + b.len(),
{
    lemma_split_nonempty(a, sep);
    if !a.contains(sep) {
        if a.len() == 0 {
            assert(a =~= Seq::<A>::empty());
            assert(split(a, sep) =~= seq![a]);
        } else {
            let init = a.drop_last();
            assert(!init.contains(sep)) by {
                if init.contains(sep) {
                    let i = choose|i: int| 0 <= i < init.len() && init[i] == sep;
                    assert(a[i] == sep);
                }
            }
            assert(a.last() != sep) by {
                assert(a.contains(a.last()));
            }
            separators_part_texts(init, Seq::empty(), sep);
            assert(init.push(a.last()) =~= a);
            assert(split(a, sep) =~= seq![a]);
        }
    }
    let whole = a.push(sep) + b;
    if b.len() == 0 {
        assert(whole =~= a.push(sep));
        assert(whole.drop_last() =~= a);
        assert(split(whole, sep) =~= split(a, sep) + split(b, sep));
    } else {
        separators_part_texts(a, b.drop_last(), sep);
        lemma_split_nonempty(b.drop_last(), sep);
        assert(whole.drop_last() =~= a.push(sep) + b.drop_last());
        assert(whole.last() == b.last());
        let prev = split(a, sep) + split(b.drop_last(), sep);
        if b.last() != sep {
            assert(prev.last() == split(b.drop_last(), sep).last());
            assert(prev.drop_last() =~= split(a, sep) + split(b.drop_last(), sep).drop_last());
        }
        assert(split(whole, sep) =~= split(a, sep) + split(b, sep));
    }
}

/// A prefix is taken off exactly the texts that begin with it, and leaves the
/// rest.
pub proof fn prefixes_come_off(prefix: Text, rest: Text, s: Text)
    ensures
        stripped(prefix + rest, prefix) == Some(rest),
        stripped(s, prefix) matches Some(r) ==> s == prefix + r,
{
    assert((prefix + rest).take(prefix.len() as int) =~= prefix);
    assert((prefix + rest).skip(prefix.len() as int) =~= rest);
    if stripped(s, prefix) is Some {
        assert(s =~= prefix + s.skip(prefix.len() as int));
    }
}

/// The first difference of two texts decides which comes first; a text comes
/// before all that continue it.
pub proof fn the_first_difference_decides(common: Text, a: Text, b: Text)
    ensures
        (a.len() > 0 && b.len() > 0 && a[0] != b[0]) ==> (text_lt(common + a, common + b)
            <==> a[0] < b[0]),
        b.len() > 0 ==> text_lt(common, common + b) && !text_lt(common + b, common),
    decreases common.len(),
{
    if common.len() == 0 {
        assert(common + a =~= a);
        assert(common + b =~= b);
    } else {
        let c = common.skip(1);
        the_first_difference_decides(c, a, b);
        assert((common + a).skip(1) =~= c + a);
        assert((common + b).skip(1) =~= c + b);
        assert((common + a)[0] == common[0]);
        assert((common + b)[0] == common[0]);
    }
}

/// Several strings are several texts: each in its place, none added or lost.
pub proof fn strings_keep_their_places(
    v: Seq<String>,
    p: Seq<(String, String)>,
    c: Seq<Vec<char>>,
    i: int,
)
    ensures
        contents(c).len() == c.len(),
        0 <= i < c.len() ==> contents(c)[i] == c[i]@,
        texts(v).len() == v.len(),
        0 <= i < v.len() ==> texts(v)[i] == v[i]@,
        pairs(p).len() == p.len(),
        0 <= i < p.len() ==> pairs(p)[i].0 == p[i].0@ && pairs(p)[i].1 == p[i].1@,
{
}

} // verus!
