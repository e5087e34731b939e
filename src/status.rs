//! Reading a process's thread-group id from its `/proc/<pid>/status` text,
//! to tell processes from threads.

use vstd::prelude::*;
use vstd::string::StrSliceExecFns;
use vstd::string::StringExecFns;
use crate::output::{lines_of, text_lines};
use crate::text::occurs_at_exec;

verus! {

/// The characters that Unicode counts as white space.
pub open spec fn is_ws(c: char) -> bool {
    c == '\t' || c == '\n' || c == '\u{0B}' || c == '\u{0C}' || c == '\r' || c == ' ' || c == '\u{85}' || c == '\u{A0}'
        || c == '\u{1680}' || ('\u{2000}' <= c && c <= '\u{200A}') || c == '\u{2028}' || c == '\u{2029}' || c == '\u{202F}'
        || c == '\u{205F}' || c == '\u{3000}'
}

fn is_ws_exec(c: char) -> (r: bool)
    ensures
        r == is_ws(c),
{
    c == '\t' || c == '\n' || c == '\u{0B}' || c == '\u{0C}' || c == '\r' || c == ' ' || c == '\u{85}' || c == '\u{A0}'
        || c == '\u{1680}' || ('\u{2000}' <= c && c <= '\u{200A}') || c == '\u{2028}' || c == '\u{2029}' || c == '\u{202F}'
        || c == '\u{205F}' || c == '\u{3000}'
}

/// The white-space separated words of `s`, in order.
pub open spec fn tokens(s: Seq<char>) -> Seq<Seq<char>>
    decreases s.len(),
{
    if s.len() == 0 {
        Seq::empty()
    } else if is_ws(s.last()) {
        tokens(s.drop_last())
    } else if s.len() >= 2 && !is_ws(s[s.len() - 2]) {
        let t = tokens(s.drop_last());
        t.update(t.len() - 1, t.last().push(s.last()))
    } else {
        tokens(s.drop_last()).push(seq![s.last()])
    }
}

proof fn lemma_tokens_open(s: Seq<char>)
    requires
        s.len() > 0,
        !is_ws(s.last()),
    ensures
        tokens(s).len() > 0,
    decreases s.len(),
{
    if s.len() >= 2 && !is_ws(s[s.len() - 2]) {
        lemma_tokens_open(s.drop_last());
    }
}

/// The words of `s`.
pub fn split_tokens(s: &str) -> (r: Vec<String>)
    ensures
        r@.len() == tokens(s@).len(),
        forall|i: int| 0 <= i < r@.len() ==> (#[trigger] r@[i])@ == tokens(s@)[i],
{
    let n = s.unicode_len();
    let mut out: Vec<String> = Vec::new();
    let mut cur = String::new();
    let mut inside = false;
    let mut i: usize = 0;
    while i < n
        invariant
            n == s@.len(),
            i <= n,
            inside == (i > 0 && !is_ws(s@[i - 1])),
            !inside ==> cur@.len() == 0,
            tokens(s@.subrange(0, i as int)).len() == out@.len() + if inside { 1int } else { 0int },
            forall|k: int| 0 <= k < out@.len() ==> (#[trigger] out@[k])@ == tokens(s@.subrange(0, i as int))[k],
            inside ==> tokens(s@.subrange(0, i as int)).last() == cur@,
        decreases n - i,
    {
        let ghost pre = s@.subrange(0, i as int);
        let ghost next = s@.subrange(0, i + 1);
        assert(next.drop_last() == pre);
        assert(next.last() == s@[i as int]);
        let c = s.get_char(i);
        if is_ws_exec(c) {
            if inside {
                out.push(cur);
                cur = String::new();
            }
            inside = false;
        } else {
            if inside {
                assert(next[next.len() - 2] == s@[i - 1]);
                proof {
                    lemma_tokens_open(pre);
                }
            }
            cur.append(s.substring_char(i, i + 1));
            assert(cur@ =~= tokens(next).last());
            inside = true;
        }
        i = i + 1;
    }
    assert(s@.subrange(0, n as int) == s@);
    if inside {
        out.push(cur);
    }
    out
}

/// The value of a string of decimal digits.
pub open spec fn digits_value(d: Seq<char>) -> int
    decreases d.len(),
{
    if d.len() == 0 { 0 } else { digits_value(d.drop_last()) * 10 + (d.last() as int - '0' as int) }
}

pub open spec fn all_digits(d: Seq<char>) -> bool {
    forall|i: int| 0 <= i < d.len() ==> '0' <= #[trigger] d[i] && d[i] <= '9'
}

/// A decimal `i32` as text: an optional sign, then at least one digit, the
/// value within range.
pub open spec fn parsed_i32(s: Seq<char>) -> Option<i32> {
    let neg = s.len() > 0 && s[0] == '-';
    let signed = s.len() > 0 && (s[0] == '-' || s[0] == '+');
    let d = if signed { s.drop_first() } else { s };
    let v = if neg { -digits_value(d) } else { digits_value(d) };
    if d.len() > 0 && all_digits(d) && i32::MIN <= v <= i32::MAX { Some(v as i32) } else { None }
}

proof fn lemma_digits_grow(d: Seq<char>, k: int)
    requires
        all_digits(d),
        0 <= k <= d.len(),
    ensures
        digits_value(d) >= digits_value(d.subrange(0, k)) >= 0,
    decreases d.len(),
{
    if d.len() > 0 {
        assert(all_digits(d.drop_last())) by {
            assert forall|i: int| 0 <= i < d.drop_last().len() implies '0' <= #[trigger] d.drop_last()[i] && d.drop_last()[i] <= '9' by {
                assert(d.drop_last()[i] == d[i]);
            }
        }
        assert(d.last() == d[d.len() - 1]);
        if k == d.len() {
            assert(d.subrange(0, k) == d);
            lemma_digits_grow(d.drop_last(), 0);
        } else {
            lemma_digits_grow(d.drop_last(), k);
            assert(d.drop_last().subrange(0, k) == d.subrange(0, k));
        }
    } else {
        assert(d.subrange(0, k) == d);
    }
}

proof fn lemma_not_digits(s: Seq<char>, d: Seq<char>)
    requires
        d == (if s.len() > 0 && (s[0] == '-' || s[0] == '+') { s.drop_first() } else { s }),
        !all_digits(d),
    ensures
        parsed_i32(s) is None,
{
}

proof fn lemma_too_large(s: Seq<char>, d: Seq<char>)
    requires
        d == (if s.len() > 0 && (s[0] == '-' || s[0] == '+') { s.drop_first() } else { s }),
        all_digits(d) ==> digits_value(d) > 2147483648,
    ensures
        parsed_i32(s) is None,
{
}

/// Parses a decimal `i32`.
pub fn parse_i32(s: &str) -> (r: Option<i32>)
    ensures
        r == parsed_i32(s@),
{
    let n = s.unicode_len();
    if n == 0 {
        return None;
    }
    let first = s.get_char(0);
    let neg = first == '-';
    let start: usize = if first == '-' || first == '+' { 1 } else { 0 };
    let ghost d = if start == 1 { s@.drop_first() } else { s@ };
    assert(first == s@[0]);
    assert(d == (if s@.len() > 0 && (s@[0] == '-' || s@[0] == '+') { s@.drop_first() } else { s@ }));
    assert(neg == (s@.len() > 0 && s@[0] == '-'));
    assert(d =~= s@.subrange(start as int, n as int));
    if start == n {
        return None;
    }
    let mut acc: i64 = 0;
    let mut i: usize = start;
    while i < n
        invariant
            n == s@.len(),
            start <= i <= n,
            d == s@.subrange(start as int, n as int),
            d == (if s@.len() > 0 && (s@[0] == '-' || s@[0] == '+') { s@.drop_first() } else { s@ }),
            neg == (s@.len() > 0 && s@[0] == '-'),
            all_digits(d.subrange(0, i - start)),
            acc == digits_value(d.subrange(0, i - start)),
            0 <= acc <= 2147483648,
        decreases n - i,
    {
        let c = s.get_char(i);
        let ghost pre = d.subrange(0, i - start);
        let ghost next = d.subrange(0, i + 1 - start);
        assert(next.drop_last() == pre);
        assert(next.last() == c);
        if c < '0' || c > '9' {
            assert(d[i - start] == c);
            assert(!all_digits(d));
            proof {
                lemma_not_digits(s@, d);
            }
            return None;
        }
        let v = (c as u32 - '0' as u32) as i64;
        acc = acc * 10 + v;
        assert(all_digits(next)) by {
            assert forall|k: int| 0 <= k < next.len() implies '0' <= #[trigger] next[k] && next[k] <= '9' by {
                if k < next.len() - 1 {
                    assert(next[k] == pre[k]);
                }
            }
        }
        if acc > 2147483648 {
            proof {
                if all_digits(d) {
                    lemma_digits_grow(d, i + 1 - start);
                    assert(digits_value(d) > 2147483648);
                }
            }
            proof {
                lemma_too_large(s@, d);
            }
            return None;
        }
        i = i + 1;
    }
    assert(d.subrange(0, n - start) == d);
    let v: i64 = if neg { -acc } else { acc };
    if v > 2147483647 {
        None
    } else {
        Some(v as i32)
    }
}

/// The scheme of the thread-group line.
pub open spec fn tgid_label() -> Seq<char> {
    seq!['T', 'g', 'i', 'd', ':']
}

/// The thread-group id on a status line, when it is the `Tgid:` line and
/// its second word is a number.
pub open spec fn line_tgid(line: Seq<char>) -> Option<i32> {
    if line.len() >= 5 && line.subrange(0, 5) == tgid_label() && tokens(line).len() >= 2 {
        parsed_i32(tokens(line)[1])
    } else {
        None
    }
}

/// The thread-group id of the first line that gives one.
pub open spec fn first_tgid(lines: Seq<Seq<char>>) -> Option<i32>
    decreases lines.len(),
{
    if lines.len() == 0 {
        None
    } else if line_tgid(lines[0]) is Some {
        line_tgid(lines[0])
    } else {
        first_tgid(lines.drop_first())
    }
}

/// The thread-group id that a status text gives.
pub fn status_tgid(content: &str) -> (r: Option<i32>)
    ensures
        r == first_tgid(lines_of(content@)),
{
    let lines = text_lines(content);
    let ghost ls = lines_of(content@);
    let label = "Tgid:";
    proof {
        reveal_strlit("Tgid:");
        assert(label@ =~= tgid_label());
    }
    let mut i: usize = 0;
    assert(ls.subrange(0, ls.len() as int) == ls);
    while i < lines.len()
        invariant
            lines@.len() == ls.len(),
            ls == lines_of(content@),
            forall|k: int| 0 <= k < ls.len() ==> (#[trigger] lines@[k])@ == ls[k],
            label@ == tgid_label(),
            i <= ls.len(),
            first_tgid(ls) == first_tgid(ls.subrange(i as int, ls.len() as int)),
        decreases lines.len() - i,
    {
        let line = lines[i].as_str();
        let ghost rest = ls.subrange(i as int, ls.len() as int);
        assert(rest[0] == line@);
        assert(rest.drop_first() == ls.subrange(i + 1, ls.len() as int));
        if occurs_at_exec(line, label, 0) {
            let words = split_tokens(line);
            if words.len() >= 2 {
                match parse_i32(words[1].as_str()) {
                    Some(t) => {
                        assert(line_tgid(line@) == Some(t));
                        assert(first_tgid(rest) == line_tgid(rest[0]));
                        assert(first_tgid(ls) == Some(t));
                        return Some(t);
                    },
                    None => {},
                }
            }
        }
        i = i + 1;
    }
    assert(ls.subrange(ls.len() as int, ls.len() as int).len() == 0);
    None
}

/// Whether the status text is that of the process `pid` itself rather than
/// of one of its threads: its thread-group id is the pid.
pub fn is_process_status(content: &str, pid: u32) -> (r: bool)
    ensures
        r == (first_tgid(lines_of(content@)) matches Some(t) && t as int == pid as int),
{
    match status_tgid(content) {
        Some(t) => t >= 0 && t as u32 == pid,
        None => false,
    }
}

} // verus!
