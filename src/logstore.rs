//! Reading per-service log files: the last lines of a session, and the
//! cursor that follows a file as it grows or is truncated.
use vstd::prelude::*;
use vstd::string::*;
use crate::output::{lemma_unprefix_rendered, log_line, strip_log_prefix, unprefixed};

verus! {

/// Position of the first of the last `n` lines.
pub open spec fn window_start(len: int, n: int) -> int {
    if len > n {
        len - n
    } else {
        0
    }
}

/// The lines from `start` on, each without its stored prefix.
pub open spec fn unprefixed_from(name: Seq<char>, lines: Seq<String>, start: int) -> Seq<Seq<char>> {
    Seq::new((lines.len() - start) as nat, |i: int| unprefixed(name, lines[start + i]@))
}

pub open spec fn texts(v: Seq<String>) -> Seq<Seq<char>> {
    v.map_values(|s: String| s@)
}

fn unprefix_from(name: &str, lines: &Vec<String>, start: usize) -> (r: Vec<String>)
    requires
        start <= lines@.len(),
    ensures
        texts(r@) == unprefixed_from(name@, lines@, start as int),
{
    let mut r: Vec<String> = Vec::new();
    let mut i: usize = start;
    while i < lines.len()
        invariant
            start <= i <= lines@.len(),
            texts(r@) == unprefixed_from(name@, lines@, start as int).subrange(0, i - start),
        decreases lines@.len() - i,
    {
        let line = strip_log_prefix(name, lines[i].as_str());
        let ghost before = r@;
        r.push(line);
        proof {
            assert(texts(r@) =~= texts(before).push(line@));
            assert(unprefixed_from(name@, lines@, start as int).subrange(0, i + 1 - start) =~= unprefixed_from(
                name@,
                lines@,
                start as int,
            ).subrange(0, i - start).push(line@));
        }
        i = i + 1;
    }
    proof {
        assert(unprefixed_from(name@, lines@, start as int).subrange(0, i - start) =~= unprefixed_from(
            name@,
            lines@,
            start as int,
        ));
    }
    r
}

/// The last `n` lines of a log file, oldest first, without their stored
/// prefixes. `None` for a file that does not exist yet: no logs so far.
pub fn last_lines(name: &str, file_lines: Option<&Vec<String>>, n: usize) -> (r: Option<Vec<String>>)
    ensures
        r is None <==> file_lines is None,
        r matches Some(out) ==> file_lines matches Some(lines) && out@.len() <= n && texts(out@)
            == unprefixed_from(name@, lines@, window_start(lines@.len() as int, n as int)),
{
    match file_lines {
        None => None,
        Some(lines) => {
            let start = if lines.len() > n {
                lines.len() - n
            } else {
                0
            };
            let out = unprefix_from(name, lines, start);
            proof {
                assert(texts(out@).len() == out@.len());
            }
            Some(out)
        },
    }
}

/// The lines read from a log file in one step of following it, without
/// their stored prefixes.
pub fn tail_lines(name: &str, chunk: &Vec<String>) -> (r: Vec<String>)
    ensures
        texts(r@) == unprefixed_from(name@, chunk@, 0),
{
    unprefix_from(name, chunk, 0)
}

/// The text split at each newline: one piece more than there are newlines.
pub open spec fn pieces(s: Seq<char>) -> Seq<Seq<char>>
    decreases s.len(),
{
    if s.len() == 0 {
        seq![Seq::empty()]
    } else if s.last() == '\n' {
        pieces(s.drop_last()).push(Seq::empty())
    } else {
        let p = pieces(s.drop_last());
        p.update(p.len() - 1, p.last().push(s.last()))
    }
}

/// A line ended by a newline loses one carriage return before it.
pub open spec fn without_cr(line: Seq<char>) -> Seq<char> {
    if line.len() > 0 && line.last() == '\r' {
        line.drop_last()
    } else {
        line
    }
}

/// The lines of a text: each newline ends one (without a carriage return
/// just before it), and text after the last newline is one more line.
pub open spec fn lines_of(s: Seq<char>) -> Seq<Seq<char>> {
    let p = pieces(s);
    let ended = p.drop_last().map_values(|l: Seq<char>| without_cr(l));
    if p.last().len() > 0 {
        ended.push(p.last())
    } else {
        ended
    }
}

proof fn lemma_pieces_len(s: Seq<char>)
    ensures
        pieces(s).len() >= 1,
    decreases s.len(),
{
    if s.len() > 0 {
        lemma_pieces_len(s.drop_last());
    }
}

/// Splits log content into its lines.
pub fn split_lines(content: &str) -> (r: Vec<String>)
    ensures
        texts(r@) == lines_of(content@),
{
    let n = content.unicode_len();
    let mut r: Vec<String> = Vec::new();
    let mut start: usize = 0;
    let mut i: usize = 0;
    while i < n
        invariant
            n == content@.len(),
            start <= i <= n,
            texts(r@).len() + 1 == pieces(content@.subrange(0, i as int)).len(),
            pieces(content@.subrange(0, i as int)).drop_last().map_values(|l: Seq<char>| without_cr(l)) == texts(r@),
            pieces(content@.subrange(0, i as int)).last() == content@.subrange(start as int, i as int),
        decreases n - i,
    {
        let ghost pre = content@.subrange(0, i as int);
        let ghost next = content@.subrange(0, i + 1);
        proof {
            lemma_pieces_len(pre);
            assert(next.drop_last() =~= pre);
        }
        let c = content.get_char(i);
        if c == '\n' {
            let mut end = i;
            if i > start {
                let before = content.get_char(i - 1);
                if before == '\r' {
                    end = i - 1;
                }
            }
            let line = String::from_str(content.substring_char(start, end));
            let ghost old_r = r@;
            r.push(line);
            proof {
                let piece = content@.subrange(start as int, i as int);
                assert(line@ == without_cr(piece)) by {
                    if end < i {
                        assert(piece.drop_last() =~= content@.subrange(start as int, end as int));
                    } else {
                        assert(piece =~= content@.subrange(start as int, end as int));
                    }
                }
                assert(pieces(next) == pieces(pre).push(Seq::empty()));
                assert(pieces(next).drop_last() =~= pieces(pre));
                assert(pieces(pre) =~= pieces(pre).drop_last().push(piece));
                assert(texts(r@) =~= texts(old_r).push(line@));
                assert(pieces(next).drop_last().map_values(|l: Seq<char>| without_cr(l)) =~= texts(
                    r@,
                ));
                assert(content@.subrange(i + 1, i + 1) =~= Seq::<char>::empty());
            }
            start = i + 1;
        } else {
            proof {
                let p = pieces(pre);
                assert(pieces(next) == p.update(p.len() - 1, p.last().push(c)));
                assert(pieces(next).drop_last() =~= p.drop_last());
                assert(content@.subrange(start as int, i + 1) =~= content@.subrange(
                    start as int,
                    i as int,
                ).push(c));
            }
        }
        i = i + 1;
    }
    proof {
        assert(content@.subrange(0, n as int) =~= content@);
    }
    if start < n {
        let last = String::from_str(content.substring_char(start, n));
        let ghost old_r = r@;
        r.push(last);
        proof {
            assert(texts(r@) =~= texts(old_r).push(last@));
        }
    }
    r
}

/// The text of a log file after a session appended one record per line
/// `msgs[i]` of service `name`.
pub open spec fn records_text(name: Seq<char>, msgs: Seq<Seq<char>>) -> Seq<char>
    decreases msgs.len(),
{
    if msgs.len() == 0 {
        Seq::empty()
    } else {
        records_text(name, msgs.drop_last()) + log_line(name, msgs.last()) + seq!['\n']
    }
}

proof fn lemma_pieces_extend(t: Seq<char>, u: Seq<char>)
    requires
        !u.contains('\n'),
    ensures
        pieces(t + u) == pieces(t).drop_last().push(pieces(t).last() + u),
    decreases u.len(),
{
    lemma_pieces_len(t);
    if u.len() == 0 {
        assert(t + u =~= t);
        assert(pieces(t).last() + u =~= pieces(t).last());
        assert(pieces(t).drop_last().push(pieces(t).last()) =~= pieces(t));
    } else {
        let v = u.drop_last();
        assert(!v.contains('\n')) by {
            if v.contains('\n') {
                let i = choose|i: int| 0 <= i < v.len() && v[i] == '\n';
                assert(u[i] == '\n');
            }
        }
        assert(u.last() != '\n') by {
            assert(u[u.len() - 1] == u.last());
        }
        lemma_pieces_extend(t, v);
        assert((t + u).drop_last() =~= t + v);
        assert((t + u).last() == u.last());
        lemma_pieces_len(t + v);
        let pv = pieces(t + v);
        assert(pieces(t + u) == pv.update(pv.len() - 1, pv.last().push(u.last())));
        let base = pieces(t).drop_last();
        assert(pv == base.push(pieces(t).last() + v));
        assert(pv.last() == pieces(t).last() + v);
        assert(pv.len() - 1 == base.len());
        assert((pieces(t).last() + v).push(u.last()) =~= pieces(t).last() + u);
        assert(pv.update(pv.len() - 1, pv.last().push(u.last())) =~= base.push(pieces(t).last() + u));
    }
}

proof fn lemma_records_pieces(name: Seq<char>, msgs: Seq<Seq<char>>)
    requires
        !name.contains('\n'),
        forall|i: int| 0 <= i < msgs.len() ==> !(#[trigger] msgs[i]).contains('\n'),
    ensures
        pieces(records_text(name, msgs)) == Seq::new(
            msgs.len(),
            |i: int| log_line(name, msgs[i]),
        ).push(Seq::<char>::empty()),
    decreases msgs.len(),
{
    if msgs.len() == 0 {
        assert(pieces(Seq::<char>::empty()) =~= Seq::new(0, |i: int| log_line(name, msgs[i])).push(Seq::<char>::empty()));
    } else {
        let prev = msgs.drop_last();
        assert forall|i: int| 0 <= i < prev.len() implies !(#[trigger] prev[i]).contains('\n') by {
            assert(prev[i] == msgs[i]);
        }
        lemma_records_pieces(name, prev);
        let t = records_text(name, prev);
        let line = log_line(name, msgs.last());
        assert(!line.contains('\n')) by {
            assert(!msgs[msgs.len() - 1].contains('\n'));
            if line.contains('\n') {
                let i = choose|i: int| 0 <= i < line.len() && line[i] == '\n';
                if 1 <= i <= name.len() {
                    assert(name[i - 1] == '\n');
                } else if i >= name.len() + 3 {
                    assert(msgs.last()[i - name.len() - 3] == '\n');
                }
            }
        }
        lemma_pieces_extend(t, line);
        let full = t + line + seq!['\n'];
        assert(full.drop_last() =~= t + line);
        assert(full.last() == '\n');
        assert(records_text(name, msgs) == full);
        assert(pieces(t).last() + line =~= line);
        assert(pieces(full) =~= Seq::new(msgs.len(), |i: int| log_line(name, msgs[i])).push(
            Seq::<char>::empty(),
        ));
    }
}

/// Reading back a session's records undoes their writing: the lines of the
/// file, un-prefixed, are exactly the lines the service wrote, for any
/// service name, as long as no line holds a newline or ends in a carriage
/// return.
pub proof fn lemma_records_read_back(name: Seq<char>, msgs: Seq<Seq<char>>)
    requires
        !name.contains('\n'),
        forall|i: int| 0 <= i < msgs.len() ==> !(#[trigger] msgs[i]).contains('\n'),
        forall|i: int| 0 <= i < msgs.len() && (#[trigger] msgs[i]).len() > 0 ==> msgs[i].last() != '\r',
    ensures
        shown_lines(name, records_text(name, msgs)) == msgs,
{
    lemma_records_pieces(name, msgs);
    let text = records_text(name, msgs);
    let p = pieces(text);
    assert(p.drop_last() =~= Seq::new(msgs.len(), |i: int| log_line(name, msgs[i])));
    assert(p.last().len() == 0);
    assert forall|i: int| 0 <= i < msgs.len() implies without_cr(log_line(name, msgs[i]))
        == log_line(name, msgs[i]) && unprefixed(name, log_line(name, msgs[i])) == msgs[i] by {
        let l = log_line(name, msgs[i]);
        assert(l.last() == (if msgs[i].len() > 0 { msgs[i].last() } else { ' ' })) by {
            if msgs[i].len() > 0 {
                assert(l[l.len() - 1] == msgs[i][msgs[i].len() - 1]);
            } else {
                assert(l[l.len() - 1] == ' ');
            }
        }
        lemma_unprefix_rendered(name, msgs[i]);
    }
    assert(shown_lines(name, text) =~= msgs);
}

/// How far a follower has read a log file, in bytes.
#[derive(Clone, Copy, Debug, PartialEq, Eq, Structural)]
pub struct TailCursor {
    pub pos: u64,
}

/// One step of following: given the cursor and the file's length now, the
/// new cursor and the byte range to read. A grown file is read from the
/// cursor to its end, and the cursor waits for `advance` to say how much of
/// it was used; a shrunk one was truncated by a new session, and the cursor
/// goes back to its start.
pub open spec fn tail_step(pos: u64, len: u64) -> (u64, Option<(u64, u64)>) {
    if len > pos {
        (pos, Some((pos, len)))
    } else if len < pos {
        (0, None)
    } else {
        (pos, None)
    }
}

/// The length of the part of `b` made of complete lines: up to and
/// including its last newline, or nothing when it has none.
pub open spec fn complete_len(b: Seq<u8>) -> int
    decreases b.len(),
{
    if b.len() == 0 {
        0
    } else if b.last() == 10u8 {
        b.len() as int
    } else {
        complete_len(b.drop_last())
    }
}

/// The text that `String::from_utf8_lossy` makes of some bytes.
pub uninterp spec fn utf8_lossy_of(b: Seq<u8>) -> Seq<char>;

/// Relies on `String::from_utf8_lossy`: the bytes decoded as UTF-8, with
/// each invalid sequence replaced by U+FFFD.
#[verifier::external_body]
fn decode_lossy(b: &[u8]) -> (r: String)
    ensures
        r@ == utf8_lossy_of(b@),
{
    String::from_utf8_lossy(b).into_owned()
}

/// The lines of a text as a follower shows them: without stored prefixes.
pub open spec fn shown_lines(name: Seq<char>, text: Seq<char>) -> Seq<Seq<char>> {
    lines_of(text).map_values(|l: Seq<char>| unprefixed(name, l))
}

/// The messages that the bytes read in one step give: those of their
/// complete lines only.
pub open spec fn complete_messages(name: Seq<char>, chunk: Seq<u8>) -> Seq<Seq<char>> {
    shown_lines(name, utf8_lossy_of(chunk.subrange(0, complete_len(chunk))))
}

fn complete_prefix_len(chunk: &Vec<u8>) -> (r: usize)
    ensures
        r as int == complete_len(chunk@),
{
    let mut i: usize = chunk.len();
    proof {
        assert(chunk@.subrange(0, i as int) =~= chunk@);
    }
    while i > 0
        invariant
            i <= chunk@.len(),
            complete_len(chunk@) == complete_len(chunk@.subrange(0, i as int)),
        decreases i,
    {
        proof {
            assert(chunk@.subrange(0, i as int).drop_last() =~= chunk@.subrange(0, i - 1));
        }
        if chunk[i - 1] == 10u8 {
            return i;
        }
        i = i - 1;
    }
    0
}

impl TailCursor {
    /// A follower that starts at the current end of the file, showing only
    /// what is appended from now on.
    pub fn at_end(len: u64) -> (r: TailCursor)
        ensures
            r.pos == len,
    {
        TailCursor { pos: len }
    }

    /// Observes the file's length; returns the byte range to read, if any.
    pub fn poll(&mut self, len: u64) -> (r: Option<(u64, u64)>)
        ensures
            (final(self).pos, r) == tail_step(old(self).pos, len),
    {
        if len > self.pos {
            Some((self.pos, len))
        } else {
            if len < self.pos {
                self.pos = 0;
            }
            None
        }
    }

    /// Takes in the bytes read from the cursor on: returns the messages of
    /// their complete lines, and moves the cursor past the last newline. A
    /// line still being written stays unread until its newline arrives.
    pub fn advance(&mut self, name: &str, chunk: &Vec<u8>) -> (r: Vec<String>)
        requires
            old(self).pos + chunk@.len() <= u64::MAX,
        ensures
            final(self).pos == old(self).pos + complete_len(chunk@),
            texts(r@) == complete_messages(name@, chunk@),
    {
        let k = complete_prefix_len(chunk);
        proof {
            lemma_complete_len_bounds(chunk@);
        }
        let text = decode_lossy(vstd::slice::slice_subrange(chunk.as_slice(), 0, k));
        let lines = split_lines(text.as_str());
        let r = tail_lines(name, &lines);
        proof {
            assert(texts(r@) =~= complete_messages(name@, chunk@));
        }
        self.pos = self.pos + k as u64;
        r
    }
}

proof fn lemma_complete_len_bounds(b: Seq<u8>)
    ensures
        0 <= complete_len(b) <= b.len(),
    decreases b.len(),
{
    if b.len() > 0 {
        lemma_complete_len_bounds(b.drop_last());
    }
}

/// After a truncation below the cursor, the cursor returns to the start; the
/// next growth is read from the start, and when the appended records are
/// complete the cursor lands exactly at their end, having shown each line of
/// the new session once.
pub proof fn lemma_truncation_round_trip(
    name: Seq<char>,
    pos: u64,
    truncated_len: u64,
    appended: Seq<u8>,
)
    requires
        truncated_len < pos,
        appended.len() > 0,
        appended.last() == 10u8,
        appended.len() <= u64::MAX,
    ensures
        tail_step(pos, truncated_len) == (0u64, None::<(u64, u64)>),
        tail_step(0, appended.len() as u64) == (0u64, Some((0u64, appended.len() as u64))),
        complete_len(appended) == appended.len(),
        complete_messages(name, appended) == shown_lines(name, utf8_lossy_of(appended)),
{
    assert(appended.subrange(0, appended.len() as int) =~= appended);
}

/// A line still being written is held back: when the bytes read are some
/// complete lines followed by a fragment without a newline, only the
/// complete lines are used, and the next read starts at the fragment.
pub proof fn lemma_fragment_waits(name: Seq<char>, complete: Seq<u8>, fragment: Seq<u8>)
    requires
        complete.len() > 0,
        complete.last() == 10u8,
        !fragment.contains(10u8),
    ensures
        complete_len(complete + fragment) == complete.len(),
        complete_messages(name, complete + fragment) == complete_messages(name, complete),
    decreases fragment.len(),
{
    if fragment.len() > 0 {
        assert((complete + fragment).drop_last() =~= complete + fragment.drop_last());
        assert(fragment.last() != 10u8) by {
            assert(fragment[fragment.len() - 1] == fragment.last());
        }
        assert(!fragment.drop_last().contains(10u8)) by {
            if fragment.drop_last().contains(10u8) {
                let i = choose|i: int| 0 <= i < fragment.drop_last().len() && fragment.drop_last()[i] == 10u8;
                assert(fragment[i] == 10u8);
            }
        }
        lemma_fragment_waits(name, complete, fragment.drop_last());
    } else {
        assert(complete + fragment =~= complete);
    }
    assert((complete + fragment).subrange(0, complete.len() as int) =~= complete);
    assert(complete.subrange(0, complete.len() as int) =~= complete);
}

} // verus!
