//! The last lines of a log file, read in growing windows from its end.

use crate::text::{
    contents, decode_lossy, lemma_split_nonempty, lossy_text, separators_part_texts, split,
    split_bytes, texts, Text,
};
use vstd::prelude::*;
use vstd::utf8::*;

verus! {

/// The smallest window, in bytes.
pub const FIRST_WINDOW: u64 = 16384;

/// The lines of a file: what stands between its newlines, without an empty
/// last piece behind a final newline. An empty file has none.
pub open spec fn lines_of(bytes: Seq<u8>) -> Seq<Seq<u8>> {
    if bytes.len() == 0 {
        Seq::empty()
    } else if bytes.last() == 10 {
        split(bytes, 10u8).drop_last()
    } else {
        split(bytes, 10u8)
    }
}

/// The last `n` of a sequence, or all where there are fewer.
pub open spec fn last_of<A>(s: Seq<A>, n: nat) -> Seq<A> {
    if n >= s.len() {
        s
    } else {
        s.skip(s.len() - n)
    }
}

/// The lines as text.
pub open spec fn decoded(lines: Seq<Seq<u8>>) -> Seq<Text> {
    lines.map_values(|l: Seq<u8>| lossy_text(l))
}

/// The lines that a window at the end of a file shows whole. Where the window
/// does not begin with the file, its first line may be cut and is left out.
pub open spec fn whole_lines(window: Seq<u8>, at_start: bool) -> Seq<Seq<u8>> {
    let all = lines_of(window);
    if at_start || all.len() == 0 {
        all
    } else {
        all.skip(1)
    }
}

/// The search for the last lines of a file of a given size.
#[derive(Debug, Clone, Copy, PartialEq, Eq, Structural)]
pub struct LogTail {
    pub size: u64,
    pub window: u64,
}

/// The window after this one: four times as large, at least the smallest, at
/// most the file.
pub open spec fn larger(window: u64, size: u64) -> u64 {
    let quadruple = if window * 4 <= u64::MAX {
        (window * 4) as u64
    } else {
        u64::MAX
    };
    let wide = if quadruple < FIRST_WINDOW {
        FIRST_WINDOW
    } else {
        quadruple
    };
    if wide > size {
        size
    } else {
        wide
    }
}

impl LogTail {
    pub fn new(size: u64) -> (r: Self)
        ensures
            r == (LogTail { size, window: 0 }),
    {
        LogTail { size, window: 0 }
    }

    /// Widens the window. Returns where it begins; it ends with the file.
    pub fn widen(&mut self) -> (r: u64)
        requires
            old(self).window <= old(self).size,
        ensures
            *final(self) == (LogTail { window: larger(old(self).window, old(self).size), ..*old(
                self,
            ) }),
            final(self).window <= final(self).size,
            r == final(self).size - final(self).window,
    {
        let quadruple = match self.window.checked_mul(4) {
            Some(w) => w,
            None => u64::MAX,
        };
        let wide = if quadruple < FIRST_WINDOW {
            FIRST_WINDOW
        } else {
            quadruple
        };
        self.window = if wide > self.size {
            self.size
        } else {
            wide
        };
        self.size - self.window
    }

    /// The last `max_lines` lines, if the bytes of the window show that many
    /// or the window is the whole file; otherwise it has to be widened.
    pub fn lines(&self, bytes: &Vec<u8>, max_lines: usize) -> (r: Option<Vec<String>>)
        ensures
            ({
                let at_start = self.window >= self.size;
                let shown = whole_lines(bytes@, at_start);
                match r {
                    Some(v) => {
                        let last = last_of(shown, max_lines as nat);
                        &&& at_start || shown.len() >= max_lines
                        &&& texts(v@) == decoded(last)
                        &&& forall|i: int|
                            0 <= i < last.len() && valid_utf8(#[trigger] last[i]) ==> texts(v@)[i]
                                == decode_utf8(last[i])
                    },
                    None => !at_start && shown.len() < max_lines,
                }
            }),
    {
        let at_start = self.window >= self.size;
        let ghost shown = whole_lines(bytes@, at_start);
        if bytes.len() == 0 {
            let none: Vec<String> = Vec::new();
            assert(texts(none@) =~= decoded(last_of(shown, max_lines as nat)));
            return if at_start || max_lines == 0 {
                Some(none)
            } else {
                None
            };
        }
        let parts = split_bytes(bytes, 10);
        let ghost all = split(bytes@, 10u8);
        let end: usize = if bytes[bytes.len() - 1] == 10 {
            parts.len() - 1
        } else {
            parts.len()
        };
        assert(lines_of(bytes@) =~= all.take(end as int));
        let begin: usize = if at_start || end == 0 {
            0
        } else {
            1
        };
        assert(shown =~= all.subrange(begin as int, end as int));
        let count: usize = end - begin;
        if count < max_lines && !at_start {
            return None;
        }
        let first: usize = if max_lines >= count {
            begin
        } else {
            end - max_lines
        };
        assert(last_of(shown, max_lines as nat) =~= all.subrange(first as int, end as int));
        let ghost last = all.subrange(first as int, end as int);
        let ghost want = decoded(last);
        let mut out: Vec<String> = Vec::new();
        let mut i: usize = first;
        while i < end
            invariant
                first <= i <= end <= parts@.len(),
                contents(parts@) == all,
                last == all.subrange(first as int, end as int),
                want == decoded(last),
                texts(out@) == want.take(i - first),
                forall|j: int|
                    0 <= j < i - first && valid_utf8(#[trigger] last[j]) ==> want[j]
                        == decode_utf8(last[j]),
            decreases end - i,
        {
            let ghost before = texts(out@);
            let line = decode_lossy(&parts[i]);
            assert(parts@[i as int]@ == all[i as int]);
            assert(want[i - first] == line@);
            out.push(line);
            assert(texts(out@) =~= before.push(want[i - first]));
            assert(want.take(i + 1 - first) =~= before.push(want[i - first]));
            i += 1;
        }
        assert(want.take(i - first) =~= want);
        Some(out)
    }
}

// ---------------------------------------------------------------------------
// Laws
// ---------------------------------------------------------------------------

/// A window at the end of a file that shows at least `n` whole lines shows the
/// last `n` lines of the file, and so does one that is the whole file.
pub proof fn windows_show_the_last_lines(file: Seq<u8>, from: int, n: nat)
    requires
        0 <= from <= file.len(),
        from > 0 ==> whole_lines(file.skip(from), false).len() >= n,
    ensures
        last_of(whole_lines(file.skip(from), from == 0), n) == last_of(lines_of(file), n),
{
    if from == 0 {
        assert(file.skip(0) =~= file);
    } else if from == file.len() {
        assert(file.skip(from) =~= Seq::<u8>::empty());
        assert(n == 0);
        assert(last_of(whole_lines(file.skip(from), false), 0) =~= Seq::<Seq<u8>>::empty());
        assert(last_of(lines_of(file), 0) =~= Seq::<Seq<u8>>::empty());
    } else {
        let before = file.take(from);
        let window = file.skip(from);
        assert(before + window =~= file);
        lemma_split_append(before, window, 10u8);
        lemma_split_nonempty(before, 10u8);
        lemma_split_nonempty(window, 10u8);
        assert(file.last() == window.last());
        let shown = whole_lines(window, false);
        let all = lines_of(file);
        let skipped = all.len() - shown.len();
        assert(all.skip(skipped) =~= shown);
        assert(last_of(shown, n) =~= last_of(all, n));
    }
}

/// Splitting two pieces of a text apart cuts at most one of its parts in two.
proof fn lemma_split_append<A>(a: Seq<A>, b: Seq<A>, sep: A)
    ensures
        split(a, sep).len() > 0,
        split(b, sep).len() > 0,
        split(a + b, sep) == split(a, sep).drop_last().push(
            split(a, sep).last() + split(b, sep)[0],
        ) + split(b, sep).skip(1),
    decreases b.len(),
{
    lemma_split_nonempty(a, sep);
    lemma_split_nonempty(b, sep);
    let sa = split(a, sep);
    if b.len() == 0 {
        assert(a + b =~= a);
        assert(sa.last() + split(b, sep)[0] =~= sa.last());
        assert(split(a + b, sep) =~= sa.drop_last().push(sa.last() + split(b, sep)[0]) + split(
            b,
            sep,
        ).skip(1));
    } else {
        let init = b.drop_last();
        let c = b.last();
        lemma_split_append(a, init, sep);
        let si = split(init, sep);
        let whole = a + b;
        assert(whole.drop_last() =~= a + init);
        assert(whole.last() == c);
        let prev = sa.drop_last().push(sa.last() + si[0]) + si.skip(1);
        assert(split(a + init, sep) == prev);
        if c == sep {
            assert(split(b, sep) =~= si.push(Seq::empty()));
            assert(split(whole, sep) =~= sa.drop_last().push(sa.last() + split(b, sep)[0]) + split(
                b,
                sep,
            ).skip(1));
        } else if si.len() == 1 {
            assert(split(b, sep) =~= seq![si[0].push(c)]);
            assert(prev =~= sa.drop_last().push(sa.last() + si[0]));
            assert((sa.last() + si[0]).push(c) =~= sa.last() + si[0].push(c));
            assert(split(whole, sep) =~= sa.drop_last().push(sa.last() + split(b, sep)[0]) + split(
                b,
                sep,
            ).skip(1));
        } else {
            assert(prev.last() == si.last());
            assert(split(b, sep)[0] == si[0]);
            assert(split(whole, sep) =~= sa.drop_last().push(sa.last() + split(b, sep)[0]) + split(
                b,
                sep,
            ).skip(1));
        }
    }
}

/// Widening the window reaches the whole file: each step at least quadruples
/// it or ends with the file.
pub proof fn windows_reach_the_whole_file(window: u64, size: u64)
    requires
        window <= size,
    ensures
        larger(window, size) == size || larger(window, size) >= 4 * window,
        larger(window, size) == size || larger(window, size) >= FIRST_WINDOW,
{
}

/// The lines of a file are what stands before its newlines, and what stands
/// behind the last one if that is anything: none is lost or joined to another.
pub proof fn lines_are_read_one_by_one(line: Seq<u8>, rest: Seq<u8>)
    requires
        !line.contains(10),
    ensures
        lines_of(line.push(10) + rest) == seq![line] + lines_of(rest),
        line.len() > 0 ==> lines_of(line) == seq![line],
        lines_of(Seq::<u8>::empty()).len() == 0,
{
    separators_part_texts(line, rest, 10u8);
    separators_part_texts(line, line, 10u8);
    lemma_split_nonempty(rest, 10u8);
    let all = line.push(10) + rest;
    if rest.len() == 0 {
        assert(rest =~= Seq::<u8>::empty());
        assert(split(rest, 10u8) =~= seq![rest]);
        assert(all.last() == 10);
        assert(lines_of(all) =~= seq![line] + lines_of(rest));
    } else {
        assert(all.last() == rest.last());
        assert(lines_of(all) =~= seq![line] + lines_of(rest));
    }
    if line.len() > 0 {
        assert(line.last() != 10) by {
            assert(line.contains(line.last()));
        }
    }
}

/// The last of a sequence are those at its end, as many as asked for, or all.
pub proof fn the_last_are_at_the_end<A>(front: Seq<A>, end: Seq<A>, n: nat)
    ensures
        last_of(front + end, end.len()) == end,
        n >= front.len() ==> last_of(front, n) == front,
        n <= front.len() ==> last_of(front, n).len() == n,
{
    assert((front + end).skip(front.len() as int) =~= end);
    if front.len() == 0 {
        assert(front + end =~= end);
    }
}

/// A window shows all its lines but the first, which may be cut; from the start
/// of the file it shows that too.
pub proof fn only_the_first_line_may_be_cut(window: Seq<u8>)
    ensures
        whole_lines(window, true) == lines_of(window),
        lines_of(window).len() > 0 ==> whole_lines(window, false) == lines_of(window).skip(1),
{
}

/// A larger window is four times as large, but at least 16384 bytes, and never
/// larger than the file.
pub proof fn windows_quadruple(window: u64, size: u64)
    ensures
        larger(window, size) <= size,
        larger(window, size) < size ==> larger(window, size) == if 4 * window >= 16384 {
            4 * window
        } else {
            16384
        },
        size <= 16384 ==> larger(window, size) == size,
{
}

/// Every line is decoded by itself and stays in its place.
pub proof fn lines_are_decoded_one_by_one(lines: Seq<Seq<u8>>, i: int)
    ensures
        decoded(lines).len() == lines.len(),
        0 <= i < lines.len() ==> decoded(lines)[i] == lossy_text(lines[i]),
{
}

} // verus!
