//! Decisions of the output capture: hourly log file names and rotation, and
//! the split of forwarded output into lines.

use vstd::prelude::*;
use vstd::string::StrSliceExecFns;
use vstd::string::StringExecFns;
use crate::text::same_text;

verus! {

/// The log file of stream `kind` for hour stamp `hour`: `<kind>.<hour>.log`.
pub open spec fn log_file_name_of(kind: Seq<char>, hour: Seq<char>) -> Seq<char> {
    kind + seq!['.'] + hour + seq!['.', 'l', 'o', 'g']
}

/// The file name that output of stream `kind` goes to in hour `hour`.
pub fn log_file_name(kind: &str, hour: &str) -> (r: String)
    ensures
        r@ == log_file_name_of(kind@, hour@),
{
    proof {
        reveal_strlit(".");
        reveal_strlit(".log");
    }
    let mut r = String::from_str(kind);
    r.append(".");
    r.append(hour);
    r.append(".log");
    assert(r@ =~= log_file_name_of(kind@, hour@));
    r
}

/// The decimal digit of `d`.
pub open spec fn digit(d: nat) -> char {
    if d == 0 { '0' } else if d == 1 { '1' } else if d == 2 { '2' } else if d == 3 { '3' } else if d == 4 { '4' }
    else if d == 5 { '5' } else if d == 6 { '6' } else if d == 7 { '7' } else if d == 8 { '8' } else { '9' }
}

/// `v` in exactly `w` decimal digits, with leading zeros.
pub open spec fn padded(v: nat, w: nat) -> Seq<char>
    decreases w,
{
    if w == 0 { Seq::empty() } else { padded(v / 10, (w - 1) as nat).push(digit(v % 10)) }
}

/// The hour stamp `YYYYMMDDHH` of a local calendar hour.
pub open spec fn hour_stamp_of(year: u32, month: u32, day: u32, hour: u32) -> Seq<char> {
    padded(year as nat, 4) + padded(month as nat, 2) + padded(day as nat, 2) + padded(hour as nat, 2)
}

fn digit_exec(d: u32) -> (r: &'static str)
    requires
        d < 10,
    ensures
        r@ == seq![digit(d as nat)],
{
    proof {
        reveal_strlit("0");
        reveal_strlit("1");
        reveal_strlit("2");
        reveal_strlit("3");
        reveal_strlit("4");
        reveal_strlit("5");
        reveal_strlit("6");
        reveal_strlit("7");
        reveal_strlit("8");
        reveal_strlit("9");
    }
    let r = if d == 0 { "0" } else if d == 1 { "1" } else if d == 2 { "2" } else if d == 3 { "3" } else if d == 4 { "4" }
    else if d == 5 { "5" } else if d == 6 { "6" } else if d == 7 { "7" } else if d == 8 { "8" } else { "9" };
    assert(r@ =~= seq![digit(d as nat)]);
    r
}

fn push_padded(out: &mut String, v: u32, w: u32)
    requires
        w <= 4,
    ensures
        final(out)@ == old(out)@ + padded(v as nat, w as nat),
    decreases w,
{
    if w > 0 {
        push_padded(out, v / 10, w - 1);
        out.append(digit_exec(v % 10));
        assert(padded(v as nat, w as nat) == padded((v / 10) as nat, (w - 1) as nat).push(digit((v % 10) as nat)));
        assert(final(out)@ =~= old(out)@ + padded(v as nat, w as nat));
    } else {
        assert(padded(v as nat, 0) =~= Seq::<char>::empty());
        assert(old(out)@ + padded(v as nat, 0) =~= old(out)@);
    }
}

/// The hour stamp `YYYYMMDDHH` that names the log file of a local hour.
pub fn hour_stamp(year: u32, month: u32, day: u32, hour: u32) -> (r: String)
    ensures
        r@ == hour_stamp_of(year, month, day, hour),
{
    let mut r = String::new();
    push_padded(&mut r, year, 4);
    push_padded(&mut r, month, 2);
    push_padded(&mut r, day, 2);
    push_padded(&mut r, hour, 2);
    assert(r@ =~= hour_stamp_of(year, month, day, hour));
    r
}

/// Which file one stream of a child writes to, and whether one is open.
pub struct Rotation {
    active_hour: String,
    open: bool,
}

impl Rotation {
    pub closed spec fn active(&self) -> Seq<char> {
        self.active_hour@
    }

    pub closed spec fn is_open(&self) -> bool {
        self.open
    }

    /// No file open yet; the active hour is the hour of the start.
    pub fn new(hour: &str) -> (r: Self)
        ensures
            r.active() == hour@,
            !r.is_open(),
    {
        Rotation { active_hour: String::from_str(hour), open: false }
    }

    /// A chunk was read in hour `hour`, the hour's file being `missing` or
    /// not: says whether the hour's file is to be opened for append. The
    /// hour becomes the active one.
    pub fn on_chunk(&mut self, hour: &str, missing: bool) -> (reopen: bool)
        ensures
            reopen == (hour@ != old(self).active() || missing || !old(self).is_open()),
            final(self).active() == hour@,
            final(self).is_open() == old(self).is_open(),
    {
        let rotate = !same_text(self.active_hour.as_str(), hour);
        self.active_hour = String::from_str(hour);
        rotate || missing || !self.open
    }

    /// The open asked for succeeded or failed; on failure the file open
    /// before, if any, stays in use.
    pub fn opened(&mut self, ok: bool)
        ensures
            final(self).active() == old(self).active(),
            final(self).is_open() == (ok || old(self).is_open()),
    {
        if ok {
            self.open = true;
        }
    }

    /// A write failed: the file is dropped, and the next chunk opens one.
    pub fn write_failed(&mut self)
        ensures
            final(self).active() == old(self).active(),
            !final(self).is_open(),
    {
        self.open = false;
    }
}

/// `s` cut at each line feed; there is always one more piece than feeds.
pub open spec fn pieces(s: Seq<char>) -> Seq<Seq<char>>
    decreases s.len(),
{
    if s.len() == 0 {
        seq![Seq::empty()]
    } else if s.last() == '\n' {
        pieces(s.drop_last()).push(Seq::empty())
    } else {
        let p = pieces(s.drop_last());
        p.update(p.len() - 1, p.last().push(s.last()))
    }
}

/// A terminated line loses the carriage return before its line feed.
pub open spec fn strip_cr(l: Seq<char>) -> Seq<char> {
    if l.len() > 0 && l.last() == '\r' { l.drop_last() } else { l }
}

/// The lines of `s`: cut at line feeds, a carriage return before a feed
/// dropped, and no empty line after a final feed.
pub open spec fn lines_of(s: Seq<char>) -> Seq<Seq<char>> {
    let p = pieces(s);
    let done = p.drop_last().map_values(|l: Seq<char>| strip_cr(l));
    if p.last().len() == 0 { done } else { done.push(p.last()) }
}

proof fn lemma_pieces_nonempty(s: Seq<char>)
    ensures
        pieces(s).len() >= 1,
    decreases s.len(),
{
    if s.len() > 0 {
        lemma_pieces_nonempty(s.drop_last());
    }
}

fn strip_cr_exec(l: String) -> (r: String)
    ensures
        r@ == strip_cr(l@),
{
    let n = l.as_str().unicode_len();
    if n > 0 && l.as_str().get_char(n - 1) == '\r' {
        String::from_str(l.as_str().substring_char(0, n - 1))
    } else {
        l
    }
}

/// The lines of forwarded output text, each to be logged on its own.
pub fn text_lines(s: &str) -> (r: Vec<String>)
    ensures
        r@.len() == lines_of(s@).len(),
        forall|i: int| 0 <= i < r@.len() ==> (#[trigger] r@[i])@ == lines_of(s@)[i],
{
    let n = s.unicode_len();
    let mut out: Vec<String> = Vec::new();
    let mut cur = String::new();
    let mut i: usize = 0;
    while i < n
        invariant
            n == s@.len(),
            i <= n,
            pieces(s@.subrange(0, i as int)).len() == out@.len() + 1,
            pieces(s@.subrange(0, i as int)).last() == cur@,
            forall|k: int| 0 <= k < out@.len() ==> (#[trigger] out@[k])@ == strip_cr(pieces(s@.subrange(0, i as int))[k]),
        decreases n - i,
    {
        let ghost pre = s@.subrange(0, i as int);
        let ghost next = s@.subrange(0, i + 1);
        assert(next.drop_last() == pre);
        assert(next.last() == s@[i as int]);
        proof {
            lemma_pieces_nonempty(pre);
        }
        let c = s.get_char(i);
        if c == '\n' {
            let done = strip_cr_exec(cur);
            out.push(done);
            cur = String::new();
        } else {
            cur.append(s.substring_char(i, i + 1));
            assert(cur@ =~= pieces(pre).last().push(c));
        }
        i = i + 1;
    }
    assert(s@.subrange(0, n as int) == s@);
    proof {
        lemma_pieces_nonempty(s@);
    }
    let ghost done = pieces(s@).drop_last().map_values(|l: Seq<char>| strip_cr(l));
    assert(out@.len() == done.len());
    if cur.as_str().unicode_len() > 0 {
        out.push(cur);
    }
    out
}

} // verus!
