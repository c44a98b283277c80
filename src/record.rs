//! Isolating the measurement record in the diagnostic text of an analysis
//! pass: a line holding only `{` opens it, a line holding only `}` closes it,
//! and every other line is diagnostic noise.
use vstd::prelude::*;
use crate::text::{is_space, is_space_char, push_char};

verus! {

/// Where a line-by-line scan stands relative to the record.
#[derive(Clone, Copy, Debug, PartialEq, Eq)]
pub enum ScanState {
    BeforeRecord,
    InRecord,
    Done,
}

/// The characters of a line that are not whitespace.
pub open spec fn visible(l: Seq<char>) -> Seq<char>
    decreases l.len(),
{
    if l.len() == 0 {
        seq![]
    } else {
        visible(l.drop_last()) + if is_space(l.last()) {
            Seq::<char>::empty()
        } else {
            seq![l.last()]
        }
    }
}

/// The line holds `m` and whitespace only.
pub open spec fn is_marker(l: Seq<char>, m: char) -> bool {
    visible(l) == seq![m]
}

/// One step of the scan: the state and the record lines gathered so far.
pub open spec fn step(st: (ScanState, Seq<Seq<char>>), l: Seq<char>) -> (ScanState, Seq<Seq<char>>) {
    match st.0 {
        ScanState::BeforeRecord => if is_marker(l, '{') {
            (ScanState::InRecord, st.1.push(l))
        } else {
            st
        },
        ScanState::InRecord => if is_marker(l, '}') {
            (ScanState::Done, st.1)
        } else {
            (ScanState::InRecord, st.1.push(l))
        },
        ScanState::Done => st,
    }
}

pub open spec fn scan_from(st: (ScanState, Seq<Seq<char>>), lines: Seq<Seq<char>>) -> (
    ScanState,
    Seq<Seq<char>>,
)
    decreases lines.len(),
{
    if lines.len() == 0 {
        st
    } else {
        step(scan_from(st, lines.drop_last()), lines.last())
    }
}

pub open spec fn scan_start() -> (ScanState, Seq<Seq<char>>) {
    (ScanState::BeforeRecord, Seq::<Seq<char>>::empty())
}

/// The record's lines, from its opening marker up to and without its closing
/// marker; `None` where no line opens a record.
pub open spec fn record_lines(lines: Seq<Seq<char>>) -> Option<Seq<Seq<char>>> {
    let st = scan_from(scan_start(), lines);
    if st.0 == ScanState::BeforeRecord {
        None
    } else {
        Some(st.1)
    }
}

/// Lines joined with `\n` between them.
pub open spec fn join_lines(ls: Seq<Seq<char>>) -> Seq<char>
    decreases ls.len(),
{
    if ls.len() == 0 {
        seq![]
    } else if ls.len() == 1 {
        ls[0]
    } else {
        join_lines(ls.drop_last()) + seq!['\n'] + ls.last()
    }
}

/// The text split at each `\n`: one piece more than there are `\n`.
pub open spec fn split_pieces(s: Seq<char>) -> Seq<Seq<char>>
    decreases s.len(),
{
    if s.len() == 0 {
        seq![Seq::<char>::empty()]
    } else {
        let p = split_pieces(s.drop_last());
        if s.last() == '\n' {
            p.push(Seq::<char>::empty())
        } else {
            p.update(p.len() - 1, p.last().push(s.last()))
        }
    }
}

pub open spec fn strip_cr(p: Seq<char>) -> Seq<char> {
    if p.len() > 0 && p.last() == '\r' {
        p.drop_last()
    } else {
        p
    }
}

/// The lines ended by `\n`, each without a `\r` just before its `\n`.
pub open spec fn ended_lines(s: Seq<char>) -> Seq<Seq<char>> {
    split_pieces(s).drop_last().map_values(|p: Seq<char>| strip_cr(p))
}

/// The lines of a text as `str::lines` yields them: split at `\n`, a `\r`
/// right before a `\n` dropped, and no empty line after a final `\n`.
pub open spec fn lines_of(s: Seq<char>) -> Seq<Seq<char>> {
    let last = split_pieces(s).last();
    if last.len() == 0 {
        ended_lines(s)
    } else {
        ended_lines(s).push(last)
    }
}

/// The record of a diagnostic text with its closing brace put back: its lines
/// joined by `\n`, then `\n}`.
pub open spec fn record_text(s: Seq<char>) -> Option<Seq<char>> {
    match record_lines(lines_of(s)) {
        Some(ls) => Some(join_lines(ls) + seq!['\n', '}']),
        None => None,
    }
}

proof fn lemma_split_pieces_nonempty(s: Seq<char>)
    ensures
        split_pieces(s).len() >= 1,
    decreases s.len(),
{
    if s.len() > 0 {
        lemma_split_pieces_nonempty(s.drop_last());
    }
}

proof fn lemma_scan_append(
    st: (ScanState, Seq<Seq<char>>),
    a: Seq<Seq<char>>,
    b: Seq<Seq<char>>,
)
    ensures
        scan_from(st, a + b) == scan_from(scan_from(st, a), b),
    decreases b.len(),
{
    if b.len() == 0 {
        assert(a + b =~= a);
    } else {
        lemma_scan_append(st, a, b.drop_last());
        assert((a + b).drop_last() =~= a + b.drop_last());
        assert((a + b).last() == b.last());
    }
}

proof fn lemma_scan_before(lines: Seq<Seq<char>>)
    requires
        forall|i: int| 0 <= i < lines.len() ==> !is_marker(#[trigger] lines[i], '{'),
    ensures
        scan_from(scan_start(), lines) == scan_start(),
    decreases lines.len(),
{
    if lines.len() > 0 {
        assert(!is_marker(lines[lines.len() - 1], '{'));
        lemma_scan_before(lines.drop_last());
    }
}

proof fn lemma_scan_inside(acc: Seq<Seq<char>>, lines: Seq<Seq<char>>)
    requires
        forall|i: int| 0 <= i < lines.len() ==> !is_marker(#[trigger] lines[i], '}'),
    ensures
        scan_from((ScanState::InRecord, acc), lines) == (ScanState::InRecord, acc + lines),
    decreases lines.len(),
{
    if lines.len() == 0 {
        assert(acc + lines =~= acc);
    } else {
        assert(!is_marker(lines[lines.len() - 1], '}'));
        lemma_scan_inside(acc, lines.drop_last());
        assert((acc + lines.drop_last()).push(lines.last()) =~= acc + lines);
    }
}

proof fn lemma_scan_done(acc: Seq<Seq<char>>, lines: Seq<Seq<char>>)
    ensures
        scan_from((ScanState::Done, acc), lines) == (ScanState::Done, acc),
    decreases lines.len(),
{
    if lines.len() > 0 {
        lemma_scan_done(acc, lines.drop_last());
    }
}

/// The record found does not depend on what surrounds it: lines before it
/// that do not open a record, and any lines after its closing marker, leave
/// the record's lines as they are.
pub proof fn lemma_record_ignores_surroundings(
    before: Seq<Seq<char>>,
    opening: Seq<char>,
    body: Seq<Seq<char>>,
    closing: Seq<char>,
    after: Seq<Seq<char>>,
)
    requires
        forall|i: int| 0 <= i < before.len() ==> !is_marker(#[trigger] before[i], '{'),
        is_marker(opening, '{'),
        forall|i: int| 0 <= i < body.len() ==> !is_marker(#[trigger] body[i], '}'),
        is_marker(closing, '}'),
    ensures
        record_lines(before + seq![opening] + body + seq![closing] + after) == record_lines(
            seq![opening] + body + seq![closing],
        ),
        record_lines(seq![opening] + body + seq![closing]) == Some(seq![opening] + body),
{
    let rec = seq![opening] + body + seq![closing];
    lemma_scan_before(before);
    let s1 = scan_from(scan_start(), seq![opening]);
    assert(seq![opening].drop_last() =~= Seq::<Seq<char>>::empty());
    assert(scan_from(scan_start(), Seq::<Seq<char>>::empty()) == scan_start());
    assert(Seq::<Seq<char>>::empty().push(opening) =~= seq![opening]);
    assert(s1 == (ScanState::InRecord, seq![opening]));
    lemma_scan_inside(seq![opening], body);
    lemma_scan_append(scan_start(), seq![opening], body);
    lemma_scan_append(scan_start(), seq![opening] + body, seq![closing]);
    assert(seq![closing].drop_last() =~= Seq::<Seq<char>>::empty());
    let inside = (ScanState::InRecord, seq![opening] + body);
    assert(scan_from(inside, Seq::<Seq<char>>::empty()) == inside);
    assert(scan_from(inside, seq![closing]) == (ScanState::Done, seq![opening] + body));
    assert(scan_from(scan_start(), rec) == (ScanState::Done, seq![opening] + body));
    lemma_scan_append(scan_start(), before, seq![opening]);
    lemma_scan_append(scan_start(), before + seq![opening], body);
    lemma_scan_append(scan_start(), before + seq![opening] + body, seq![closing]);
    lemma_scan_append(scan_start(), before + seq![opening] + body + seq![closing], after);
    lemma_scan_done(seq![opening] + body, after);
}

proof fn lemma_split_pieces_concat(a: Seq<char>, b: Seq<char>)
    requires
        a.len() > 0,
        a.last() == '\n',
    ensures
        split_pieces(a + b) == split_pieces(a).drop_last() + split_pieces(b),
    decreases b.len(),
{
    lemma_split_pieces_nonempty(a);
    if b.len() == 0 {
        assert(a + b =~= a);
        assert(split_pieces(a) == split_pieces(a.drop_last()).push(Seq::<char>::empty()));
        assert(split_pieces(a).drop_last() + split_pieces(b) =~= split_pieces(a));
    } else {
        let b1 = b.drop_last();
        let c = b.last();
        lemma_split_pieces_concat(a, b1);
        lemma_split_pieces_nonempty(b1);
        assert((a + b).drop_last() =~= a + b1);
        assert((a + b).last() == c);
        let x = split_pieces(a).drop_last();
        let y = split_pieces(b1);
        assert(b.drop_last() == b1);
        if c == '\n' {
            assert((x + y).push(Seq::<char>::empty()) =~= x + y.push(Seq::<char>::empty()));
        } else {
            assert((x + y).last() == y.last());
            assert((x + y).update((x + y).len() - 1, y.last().push(c)) =~= x + y.update(
                y.len() - 1,
                y.last().push(c),
            ));
        }
    }
}

/// Splitting into lines commutes with joining texts at a line end.
pub proof fn lemma_lines_concat(a: Seq<char>, b: Seq<char>)
    requires
        a.len() == 0 || a.last() == '\n',
    ensures
        lines_of(a + b) == lines_of(a) + lines_of(b),
{
    if a.len() == 0 {
        assert(a + b =~= b);
        assert(split_pieces(a).drop_last() =~= Seq::<Seq<char>>::empty());
        assert(ended_lines(a) =~= Seq::<Seq<char>>::empty());
        assert(lines_of(a) + lines_of(b) =~= lines_of(b));
    } else {
        lemma_split_pieces_concat(a, b);
        lemma_split_pieces_nonempty(a);
        lemma_split_pieces_nonempty(b);
        let x = split_pieces(a).drop_last();
        let y = split_pieces(b);
        assert(split_pieces(a).last().len() == 0);
        assert((x + y).drop_last() =~= x + y.drop_last());
        assert(ended_lines(a + b) =~= ended_lines(a) + ended_lines(b));
        assert((x + y).last() == y.last());
        if y.last().len() == 0 {
            assert(lines_of(a + b) =~= lines_of(a) + lines_of(b));
        } else {
            assert(lines_of(a + b) =~= lines_of(a) + lines_of(b));
        }
    }
}

/// The record found in a diagnostic text does not depend on the text around
/// it: whole lines before it that do not open a record, and anything after
/// the line that closes it, leave the extracted record as it is.
pub proof fn lemma_record_text_ignores_surroundings(
    before: Seq<char>,
    record: Seq<char>,
    after: Seq<char>,
    body: Seq<Seq<char>>,
)
    requires
        before.len() == 0 || before.last() == '\n',
        record.len() > 0,
        record.last() == '\n',
        forall|i: int|
            0 <= i < lines_of(before).len() ==> !is_marker(#[trigger] lines_of(before)[i], '{'),
        lines_of(record).len() == body.len() + 2,
        is_marker(lines_of(record)[0], '{'),
        body == lines_of(record).subrange(1, body.len() + 1 as int),
        forall|i: int| 0 <= i < body.len() ==> !is_marker(#[trigger] body[i], '}'),
        is_marker(lines_of(record).last(), '}'),
    ensures
        record_text(before + record + after) == record_text(record),
        record_text(record) == Some(
            join_lines(seq![lines_of(record)[0]] + body) + seq!['\n', '}'],
        ),
{
    let lr = lines_of(record);
    let opening = lr[0];
    let closing = lr.last();
    assert(lr =~= seq![opening] + body + seq![closing]);
    lemma_lines_concat(before, record);
    assert((before + record).last() == '\n');
    lemma_lines_concat(before + record, after);
    lemma_record_ignores_surroundings(lines_of(before), opening, body, closing, lines_of(after));
    assert(lines_of(before + record + after) == lines_of(before) + seq![opening] + body + seq![
        closing,
    ] + lines_of(after));
}

/// The only visible character of a line, if it has exactly one.
fn sole_visible(l: &str) -> (r: Option<char>)
    ensures
        r == (if visible(l@).len() == 1 {
            Some(visible(l@)[0])
        } else {
            None
        }),
{
    let mut count: usize = 0;
    let mut first: char = ' ';
    for c in it: l.chars()
        invariant
            it.seq() == l@,
            count <= 2,
            count == 2 || count == visible(l@.take(it.index() as int)).len(),
            count == 2 ==> visible(l@.take(it.index() as int)).len() >= 2,
            count >= 1 ==> first == visible(l@.take(it.index() as int))[0],
    {
        let ghost pre = l@.take(it.index() as int);
        assert(l@.take(it.index() as int + 1).drop_last() == pre);
        if !is_space_char(c) {
            if count == 0 {
                first = c;
            }
            if count < 2 {
                count = count + 1;
            }
        }
    }
    assert(l@.take(l@.len() as int) == l@);
    if count == 1 {
        Some(first)
    } else {
        None
    }
}

/// Feeds one line to the scan, appending it to `out` where it belongs to the
/// record.
fn feed_line(st: &mut ScanState, out: &mut String, line: &str, acc: Ghost<Seq<Seq<char>>>)
    requires
        old(out)@ == join_lines(acc@),
        (*old(st) == ScanState::BeforeRecord) == (acc@.len() == 0),
    ensures
        (*final(st), step((*old(st), acc@), line@).1) == step((*old(st), acc@), line@),
        final(out)@ == join_lines(step((*old(st), acc@), line@).1),
        (*final(st) == ScanState::BeforeRecord) == (step((*old(st), acc@), line@).1.len() == 0),
{
    let v = sole_visible(line);
    proof {
        if visible(line@).len() == 1 {
            assert(visible(line@) =~= seq![visible(line@)[0]]);
        }
    }
    assert(is_marker(line@, '{') == (v == Some('{')));
    assert(is_marker(line@, '}') == (v == Some('}')));
    match *st {
        ScanState::BeforeRecord => {
            if v == Some('{') {
                out.append(line);
                *st = ScanState::InRecord;
                assert(acc@.push(line@).len() == 1);
                assert(final(out)@ == join_lines(acc@.push(line@)));
            }
        },
        ScanState::InRecord => {
            if v == Some('}') {
                *st = ScanState::Done;
            } else {
                push_char(out, '\n');
                out.append(line);
                assert(acc@.push(line@).drop_last() =~= acc@);
            }
        },
        ScanState::Done => {},
    }
}

/// The measurement record in an analysis pass's diagnostic text, closed with
/// `\n}`; `None` where no line opens one.
pub fn extract_record(raw: &str) -> (r: Option<String>)
    ensures
        match r {
            Some(t) => record_text(raw@) == Some(t@),
            None => record_text(raw@) is None,
        },
{
    let mut st = ScanState::BeforeRecord;
    let mut out = String::new();
    let mut line = String::new();
    let mut pending_cr = false;
    let ghost mut acc: Seq<Seq<char>> = seq![];
    for c in it: raw.chars()
        invariant
            it.seq() == raw@,
            (st, acc) == scan_from(scan_start(), ended_lines(raw@.take(it.index() as int))),
            split_pieces(raw@.take(it.index() as int)).last() == line@ + if pending_cr {
                seq!['\r']
            } else {
                Seq::<char>::empty()
            },
            !pending_cr ==> (line@.len() == 0 || line@.last() != '\r'),
            out@ == join_lines(acc),
            (st == ScanState::BeforeRecord) == (acc.len() == 0),
    {
        let ghost pre = raw@.take(it.index() as int);
        let ghost p = split_pieces(pre);
        proof {
            assert(raw@.take(it.index() as int + 1) =~= pre.push(c));
            lemma_split_pieces_nonempty(pre);
        }
        if c == '\n' {
            proof {
                assert(pre.push(c).drop_last() =~= pre);
                assert(split_pieces(pre.push(c)) == p.push(Seq::<char>::empty()));
                assert(p.push(Seq::<char>::empty()).drop_last() =~= p);
                assert(ended_lines(pre.push(c)) =~= ended_lines(pre).push(strip_cr(p.last())));
                if pending_cr {
                    assert((line@ + seq!['\r']).drop_last() == line@);
                }
                assert(strip_cr(p.last()) == line@);
                assert(ended_lines(pre.push(c)).drop_last() =~= ended_lines(pre));
            }
            let ghost st0 = st;
            feed_line(&mut st, &mut out, line.as_str(), Ghost(acc));
            proof {
                acc = step((st0, acc), line@).1;
            }
            line = String::new();
            pending_cr = false;
        } else {
            proof {
                assert(pre.push(c).drop_last() =~= pre);
                assert(split_pieces(pre.push(c)) == p.update(p.len() - 1, p.last().push(c)));
                assert(p.update(p.len() - 1, p.last().push(c)).drop_last() =~= p.drop_last());
                assert(ended_lines(pre.push(c)) =~= ended_lines(pre));
            }
            if c == '\r' {
                if pending_cr {
                    push_char(&mut line, '\r');
                }
                pending_cr = true;
            } else {
                if pending_cr {
                    push_char(&mut line, '\r');
                    pending_cr = false;
                }
                push_char(&mut line, c);
            }
        }
    }
    assert(raw@.take(raw@.len() as int) =~= raw@);
    proof {
        lemma_split_pieces_nonempty(raw@);
    }
    if pending_cr {
        push_char(&mut line, '\r');
    }
    assert(split_pieces(raw@).last() =~= line@);
    if line.as_str().unicode_len() > 0 {
        proof {
            assert(ended_lines(raw@).push(line@).drop_last() =~= ended_lines(raw@));
            assert(lines_of(raw@) == ended_lines(raw@).push(line@));
        }
        let ghost st0 = st;
        feed_line(&mut st, &mut out, line.as_str(), Ghost(acc));
        proof {
            acc = step((st0, acc), line@).1;
        }
    }
    assert((st, acc) == scan_from(scan_start(), lines_of(raw@)));
    match st {
        ScanState::BeforeRecord => None,
        _ => {
            let mut closing = String::new();
            push_char(&mut closing, '\n');
            push_char(&mut closing, '}');
            out.append(closing.as_str());
            Some(out)
        },
    }
}

} // verus!
