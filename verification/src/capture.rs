//! Reading what the capture tools print: the device list of `adb devices`
//! and the window list a capture script prints, and naming what is captured.

use vstd::prelude::*;
use crate::text::{chars_of, split_lines, split_words, string_of, text_lines, words};

verus! {

/// The state `adb devices` reports for a device that is ready.
pub open spec fn ready_state() -> Seq<char> {
    seq!['d', 'e', 'v', 'i', 'c', 'e']
}

/// The serial on a line of `adb devices`, when its second word says the
/// device is ready.
pub open spec fn adb_serial(line: Seq<char>) -> Option<Seq<char>> {
    let w = words(line);
    if w.len() >= 2 && w[1] == ready_state() {
        Some(w[0])
    } else {
        None
    }
}

/// The serials of the ready devices among `lines`, in order.
pub open spec fn serials_of(lines: Seq<Seq<char>>) -> Seq<Seq<char>>
    decreases lines.len(),
{
    if lines.len() == 0 {
        Seq::empty()
    } else {
        let r = serials_of(lines.drop_last());
        match adb_serial(lines.last()) {
            Some(s) => r.push(s),
            None => r,
        }
    }
}

/// The serials of ready devices in the output of `adb devices`: every line
/// after the heading whose second word is `device`, its first word.
pub open spec fn adb_devices(output: Seq<char>) -> Seq<Seq<char>> {
    let lines = text_lines(output);
    if lines.len() == 0 {
        Seq::empty()
    } else {
        serials_of(lines.drop_first())
    }
}

/// Whether `w` is the word `device`.
fn is_ready_state(w: &Vec<char>) -> (b: bool)
    ensures
        b == (w@ == ready_state()),
{
    let r = w.len() == 6 && w[0] == 'd' && w[1] == 'e' && w[2] == 'v' && w[3] == 'i' && w[4] == 'c' && w[5] == 'e';
    proof {
        if r {
            assert(w@ =~= ready_state());
        }
    }
    r
}

/// The serials of the ready devices listed by `adb devices`.
pub fn parse_adb_devices(output: &str) -> (r: Vec<String>)
    ensures
        r@.len() == adb_devices(output@).len(),
        forall|i: int| 0 <= i < r@.len() ==> #[trigger] r@[i]@ == adb_devices(output@)[i],
{
    let chars = chars_of(output);
    let lines = split_lines(&chars);
    let mut serials: Vec<String> = Vec::new();
    if lines.len() == 0 {
        return serials;
    }
    let ghost rest = lines.deep_view().drop_first();
    let mut i: usize = 1;
    proof {
        assert(rest.take(0) =~= Seq::<Seq<char>>::empty());
    }
    while i < lines.len()
        invariant
            1 <= i <= lines@.len(),
            lines.deep_view() == text_lines(output@),
            rest == lines.deep_view().drop_first(),
            serials@.len() == serials_of(rest.take(i - 1)).len(),
            forall|k: int| 0 <= k < serials@.len() ==> #[trigger] serials@[k]@ == serials_of(rest.take(i - 1))[k],
        decreases lines.len() - i,
    {
        let ghost prev = rest.take(i - 1);
        let ghost next = rest.take(i as int);
        proof {
            assert(next.drop_last() =~= prev);
            assert(next.last() == lines.deep_view()[i as int]);
            assert(lines.deep_view()[i as int] == lines@[i as int]@);
        }
        let w = split_words(&lines[i]);
        if w.len() >= 2 && is_ready_state(&w[1]) {
            proof {
                assert(w.deep_view()[1] == w@[1]@);
                assert(w.deep_view()[0] == w@[0]@);
            }
            let ghost old_serials = serials@;
            serials.push(string_of(&w[0]));
            proof {
                assert forall|k: int| 0 <= k < serials@.len() implies #[trigger] serials@[k]@ == serials_of(next)[k] by {
                    if k < old_serials.len() {
                        assert(serials@[k] == old_serials[k]);
                    }
                }
            }
        } else {
            proof {
                if w.len() >= 2 {
                    assert(w.deep_view()[1] == w@[1]@);
                }
            }
        }
        i = i + 1;
    }
    proof {
        assert(rest.take(i - 1) =~= rest);
    }
    serials
}

} // verus!

verus! {

/// The lines of `lines` that are not empty, in order.
pub open spec fn nonempty_lines(lines: Seq<Seq<char>>) -> Seq<Seq<char>>
    decreases lines.len(),
{
    if lines.len() == 0 {
        Seq::empty()
    } else {
        let r = nonempty_lines(lines.drop_last());
        if lines.last().len() == 0 { r } else { r.push(lines.last()) }
    }
}

/// One line per window in the output of the window-listing script: the
/// output trimmed, split into lines, empty lines dropped.
pub open spec fn window_lines_spec(output: Seq<char>) -> Seq<Seq<char>> {
    nonempty_lines(text_lines(crate::text::trimmed(output)))
}

/// The window lines of the window-listing script's output.
pub fn window_lines(output: &str) -> (r: Vec<String>)
    ensures
        r@.len() == window_lines_spec(output@).len(),
        forall|i: int| 0 <= i < r@.len() ==> #[trigger] r@[i]@ == window_lines_spec(output@)[i],
{
    let chars = chars_of(output);
    let trimmed = crate::text::trim_chars(&chars);
    let lines = split_lines(&trimmed);
    let mut out: Vec<String> = Vec::new();
    let mut i: usize = 0;
    proof {
        assert(lines.deep_view().take(0) =~= Seq::<Seq<char>>::empty());
    }
    while i < lines.len()
        invariant
            i <= lines@.len(),
            lines.deep_view() == text_lines(crate::text::trimmed(output@)),
            out@.len() == nonempty_lines(lines.deep_view().take(i as int)).len(),
            forall|k: int| 0 <= k < out@.len() ==> #[trigger] out@[k]@ == nonempty_lines(lines.deep_view().take(i as int))[k],
        decreases lines.len() - i,
    {
        let ghost prev = lines.deep_view().take(i as int);
        let ghost next = lines.deep_view().take(i + 1);
        proof {
            assert(next.drop_last() =~= prev);
            assert(next.last() == lines@[i as int]@);
        }
        if lines[i].len() > 0 {
            let ghost old_out = out@;
            out.push(string_of(&lines[i]));
            proof {
                assert forall|k: int| 0 <= k < out@.len() implies #[trigger] out@[k]@ == nonempty_lines(next)[k] by {
                    if k < old_out.len() {
                        assert(out@[k] == old_out[k]);
                    }
                }
            }
        }
        i = i + 1;
    }
    proof {
        assert(lines.deep_view().take(lines@.len() as int) =~= lines.deep_view());
    }
    out
}

/// Most fields a window line is split into.
pub const WINDOW_FIELDS: usize = 4;

/// `s` split at its first `n - 1` bars (`|`), as `str::splitn(n, '|')`
/// does: a bar splits while there are fewer than `n` fields.
pub open spec fn bar_fields(s: Seq<char>, n: nat) -> Seq<Seq<char>>
    decreases s.len(),
{
    if s.len() == 0 {
        seq![Seq::empty()]
    } else {
        let p = bar_fields(s.drop_last(), n);
        if s.last() == '|' && p.len() < n {
            p.push(Seq::empty())
        } else {
            p.update(p.len() - 1, p.last().push(s.last()))
        }
    }
}

/// Splitting into at most `n` fields gives from one to `n` of them.
pub proof fn lemma_bar_fields_count(s: Seq<char>, n: nat)
    requires
        n >= 1,
    ensures
        1 <= bar_fields(s, n).len() <= n,
    decreases s.len(),
{
    if s.len() > 0 {
        lemma_bar_fields_count(s.drop_last(), n);
    }
}

/// The fields of a window line: id, app, title and size, the last keeping any further bars.
pub fn split_window_line(line: &str) -> (r: Vec<String>)
    ensures
        r@.len() == bar_fields(line@, WINDOW_FIELDS as nat).len(),
        forall|i: int| 0 <= i < r@.len() ==> #[trigger] r@[i]@ == bar_fields(line@, WINDOW_FIELDS as nat)[i],
{
    let chars = chars_of(line);
    let mut done: Vec<String> = Vec::new();
    let mut cur: Vec<char> = Vec::new();
    let mut i: usize = 0;
    proof {
        assert(line@.take(0) =~= Seq::<char>::empty());
    }
    while i < chars.len()
        invariant
            i <= chars@.len(),
            chars@ == line@,
            bar_fields(line@.take(i as int), WINDOW_FIELDS as nat).len() == done@.len() + 1,
            forall|k: int| 0 <= k < done@.len() ==> #[trigger] done@[k]@ == bar_fields(line@.take(i as int), WINDOW_FIELDS as nat)[k],
            cur@ == bar_fields(line@.take(i as int), WINDOW_FIELDS as nat).last(),
        decreases chars.len() - i,
    {
        let c = chars[i];
        let ghost prev = line@.take(i as int);
        let ghost next = line@.take(i + 1);
        proof {
            assert(next.drop_last() =~= prev);
            assert(next.last() == c);
            lemma_bar_fields_count(prev, WINDOW_FIELDS as nat);
        }
        if c == '|' && done.len() + 1 < WINDOW_FIELDS {
            let ghost old_done = done@;
            done.push(string_of(&cur));
            cur = Vec::new();
            proof {
                assert forall|k: int| 0 <= k < done@.len() implies #[trigger] done@[k]@ == bar_fields(next, WINDOW_FIELDS as nat)[k] by {
                    if k < old_done.len() {
                        assert(done@[k] == old_done[k]);
                    }
                }
            }
        } else {
            cur.push(c);
        }
        i = i + 1;
    }
    proof {
        assert(line@.take(chars@.len() as int) =~= line@);
    }
    let ghost old_done = done@;
    done.push(string_of(&cur));
    proof {
        assert forall|k: int| 0 <= k < done@.len() implies #[trigger] done@[k]@ == bar_fields(line@, WINDOW_FIELDS as nat)[k] by {
            if k < old_done.len() {
                assert(done@[k] == old_done[k]);
            }
        }
    }
    done
}

} // verus!
