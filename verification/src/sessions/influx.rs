//! InfluxDB line protocol: one line per session and bin, sent in payloads of up
//! to a hundred lines.

use super::state::BinReport;
#[allow(unused_imports)]
use crate::channels::queue::logs;
use crate::channels::queue::{Inbox, Outbox, Refusal};
use crate::text::push_dec;
#[allow(unused_imports)]
use crate::text::dec;
use vstd::prelude::*;

verus! {

/// The most lines of a payload.
pub const MAX_PAYLOAD_LINES: usize = 100;

/// Whether a character has a meaning of its own in a tag value.
pub open spec fn is_special(c: char) -> bool {
    c == '\\' || c == ',' || c == '=' || c == ' '
}

/// A character of a tag value; special ones are escaped by a backslash.
pub open spec fn escaped_char(c: char) -> Seq<char> {
    if is_special(c) {
        seq!['\\', c]
    } else {
        seq![c]
    }
}

/// The escaped form of a tag value.
pub open spec fn escaped(s: Seq<char>) -> Seq<char>
    decreases s.len(),
{
    if s.len() == 0 {
        Seq::empty()
    } else {
        escaped(s.drop_last()) + escaped_char(s.last())
    }
}

/// The tag value that an escaped form stands for.
pub open spec fn unescaped(t: Seq<char>) -> Seq<char>
    decreases t.len(),
{
    if t.len() == 0 {
        Seq::empty()
    } else if t[0] == '\\' && t.len() > 1 {
        seq![t[1]] + unescaped(t.skip(2))
    } else {
        seq![t[0]] + unescaped(t.skip(1))
    }
}

/// The escaped form of a tag value.
pub fn tag_value(value: &str) -> (r: String)
    ensures
        r@ == escaped(value@),
{
    let mut out = String::new();
    for c in it: value.chars()
        invariant
            it.seq() == value@,
            out@ == escaped(value@.take(it.index() as int)),
            it.index() == it.seq().len() ==> out@ == escaped(value@),
    {
        let ghost n = it.index();
        assert(value@.take(n + 1).drop_last() =~= value@.take(n));
        assert(value@.take(value@.len() as int) =~= value@);
        let ghost before = out@;
        if c == '\\' || c == ',' || c == '=' || c == ' ' {
            out.push('\\');
        }
        out.push(c);
        assert(out@ =~= before + escaped_char(c));
    }
    out
}

/// The escaped form, taken apart at the front.
proof fn lemma_escaped_front(s: Seq<char>)
    requires
        s.len() > 0,
    ensures
        escaped(s) == escaped_char(s[0]) + escaped(s.skip(1)),
    decreases s.len(),
{
    if s.len() == 1 {
        assert(escaped(s.drop_last()) =~= Seq::empty());
        assert(escaped(s.skip(1)) =~= Seq::empty());
    } else {
        lemma_escaped_front(s.drop_last());
        assert(s.drop_last().skip(1) =~= s.skip(1).drop_last());
        assert(escaped(s) =~= escaped_char(s[0]) + escaped(s.skip(1)));
    }
}

/// Escaping loses nothing: a reader that drops each escaping backslash gets the
/// tag value back.
pub proof fn tag_values_can_be_read_back(s: Seq<char>)
    ensures
        unescaped(escaped(s)) == s,
    decreases s.len(),
{
    if s.len() > 0 {
        let rest = s.skip(1);
        tag_values_can_be_read_back(rest);
        lemma_escaped_front(s);
        let t = escaped(s);
        if is_special(s[0]) {
            assert(t.skip(2) =~= escaped(rest));
        } else {
            assert(t.skip(1) =~= escaped(rest));
        }
        assert(s =~= seq![s[0]] + rest);
    }
}

/// Values without special characters are written as they are.
pub proof fn plain_tag_values_are_unchanged(s: Seq<char>)
    requires
        forall|i: int| 0 <= i < s.len() ==> !is_special(#[trigger] s[i]),
    ensures
        escaped(s) == s,
    decreases s.len(),
{
    if s.len() > 0 {
        plain_tag_values_are_unchanged(s.drop_last());
        assert(s =~= s.drop_last() + seq![s.last()]);
    }
}

/// The line of a report, given its fields.
pub open spec fn line_of(report: BinReport, network_fields: Seq<char>, media_fields: Seq<char>) -> Seq<char> {
    "teams_session_qoe,client_ip="@ + escaped(report.client_ip@) + ",session_id="@ + escaped(
        report.session_id@,
    ) + " "@ + network_fields + ","@ + media_fields + ",session_age_ns="@ + dec(
        report.session_age_ns as nat,
    ) + " "@ + dec(report.timestamp_ns as nat)
}

/// The line of a report.  The fields of the network and media metrics are
/// formatted by the caller.
pub fn influx_line(report: &BinReport, network_fields: &str, media_fields: &str) -> (r: String)
    ensures
        r@ == line_of(*report, network_fields@, media_fields@),
{
    let mut line = String::new();
    line.append("teams_session_qoe,client_ip=");
    line.append(tag_value(report.client_ip.as_str()).as_str());
    line.append(",session_id=");
    line.append(tag_value(report.session_id.as_str()).as_str());
    line.append(" ");
    line.append(network_fields);
    line.append(",");
    line.append(media_fields);
    line.append(",session_age_ns=");
    push_dec(&mut line, report.session_age_ns);
    line.append(" ");
    push_dec(&mut line, report.timestamp_ns);
    assert(line@ =~= line_of(*report, network_fields@, media_fields@));
    line
}

/// Hand a line to the writer, if there is one.  A line that the writer's queue
/// did not take comes back; without a writer the line is dropped.
pub fn push_influx_line(influx_tx: &mut Option<Outbox<String>>, line: String) -> (r: Option<
    Result<(), Refusal<String>>,
>)
    ensures
        match (*old(influx_tx), *final(influx_tx), r) {
            (Some(before), Some(after), Some(sent)) => {
                &&& logs(before.log(), line, sent, after.log())
                &&& after.queue() == before.queue()
            },
            (None, None, None) => true,
            _ => false,
        },
{
    match influx_tx {
        Some(tx) => Some(tx.offer(line)),
        None => None,
    }
}

/// Lines, each ended by a line break.
pub open spec fn payload_of(lines: Seq<Seq<char>>) -> Seq<char>
    decreases lines.len(),
{
    if lines.len() == 0 {
        Seq::empty()
    } else {
        payload_of(lines.drop_last()) + lines.last() + "\n"@
    }
}

/// The lines that came out of a queue, given what each look into it found.
pub open spec fn found(looks: Seq<Option<String>>) -> Seq<Seq<char>>
    decreases looks.len(),
{
    if looks.len() == 0 {
        Seq::empty()
    } else {
        found(looks.drop_last()) + match looks.last() {
            Some(line) => seq![line@],
            None => Seq::empty(),
        }
    }
}

/// Whether the looks are those of collecting lines behind a first one: they go on
/// until one finds nothing, or until the payload is full.
pub open spec fn exhausts(looks: Seq<Option<String>>) -> bool {
    &&& looks.len() < MAX_PAYLOAD_LINES
    &&& forall|i: int| 0 <= i < looks.len() - 1 ==> (#[trigger] looks[i]) is Some
    &&& looks.len() < MAX_PAYLOAD_LINES - 1 ==> looks.len() > 0 && looks.last() is None
}

/// What came of waiting for the first line of a payload.
pub enum LineEvent {
    Line(String),
    Timeout,
    Disconnected,
}

/// Collect the lines that are waiting behind the first into one payload, until
/// the payload is full or no line is waiting any more.  The payload holds every
/// line that was taken out of the queue, in order.  Without a first line the
/// payload is empty; without a sender there is none.
pub fn collect_payload(first: LineEvent, rx: &mut Inbox<String>) -> (r: Option<String>)
    ensures
        final(rx).queue() == old(rx).queue(),
        match first {
            LineEvent::Line(line) => {
                let before = old(rx).looks();
                let looks = final(rx).looks().skip(before.len() as int);
                &&& final(rx).looks() == before + looks
                &&& exhausts(looks)
                &&& r matches Some(p) && p@ == payload_of(seq![line@] + found(looks))
            },
            LineEvent::Timeout => {
                &&& final(rx).looks() == old(rx).looks()
                &&& r matches Some(p) && p@ == Seq::<char>::empty()
            },
            LineEvent::Disconnected => final(rx).looks() == old(rx).looks() && r is None,
        },
{
    let line = match first {
        LineEvent::Line(line) => line,
        LineEvent::Timeout => {
            return Some(String::new());
        },
        LineEvent::Disconnected => {
            return None;
        },
    };
    let mut payload = String::new();
    payload.append(line.as_str());
    payload.append("\n");
    let ghost before = rx.looks();
    let ghost mut looks: Seq<Option<String>> = Seq::empty();
    proof {
        reveal_with_fuel(payload_of, 2);
        assert(seq![line@].drop_last() =~= Seq::empty());
        assert(seq![line@] + found(looks) =~= seq![line@]);
        assert(payload@ =~= payload_of(seq![line@]));
        assert(rx.looks() =~= before + looks);
    }
    let mut lines: usize = 1;
    let mut more = true;
    while more && lines < MAX_PAYLOAD_LINES
        invariant
            rx.queue() == old(rx).queue(),
            before == old(rx).looks(),
            rx.looks() == before + looks,
            payload@ == payload_of(seq![line@] + found(looks)),
            1 <= lines <= MAX_PAYLOAD_LINES,
            looks.len() == if more {
                lines - 1
            } else {
                lines as int
            },
            !more ==> looks.last() is None && lines < MAX_PAYLOAD_LINES,
            forall|i: int| 0 <= i < looks.len() - 1 ==> (#[trigger] looks[i]) is Some,
            more && looks.len() > 0 ==> looks.last() is Some,
        decreases MAX_PAYLOAD_LINES - lines, (if more { 1int } else { 0int }),
    {
        let next = rx.poll();
        proof {
            assert(before + looks.push(next) =~= (before + looks).push(next));
            assert(looks.push(next).drop_last() =~= looks);
            if next is Some {
                let lines = seq![line@] + found(looks.push(next));
                assert(lines.drop_last() =~= seq![line@] + found(looks));
                assert(lines.last() == next->0@);
            } else {
                assert(found(looks.push(next)) =~= found(looks));
            }
            looks = looks.push(next);
        }
        match next {
            Some(line) => {
                payload.append(line.as_str());
                payload.append("\n");
                lines += 1;
            },
            None => {
                more = false;
            },
        }
    }
    assert(rx.looks().skip(before.len() as int) =~= looks);
    Some(payload)
}

/// Which characters of a tag value are escaped: backslash, comma, equals sign and
/// space get a backslash before them, and all others stay as they are.
pub proof fn tag_values_are_escaped_by_character(s: Seq<char>, c: char)
    ensures
        escaped(Seq::empty()) == Seq::<char>::empty(),
        c == '\\' || c == ',' || c == '=' || c == ' ' ==> escaped(s.push(c)) == escaped(s).push(
            '\\',
        ).push(c),
        !(c == '\\' || c == ',' || c == '=' || c == ' ') ==> escaped(s.push(c)) == escaped(s).push(
            c,
        ),
{
    assert(s.push(c).drop_last() =~= s);
    assert(escaped(s) + seq!['\\', c] =~= escaped(s).push('\\').push(c));
    assert(escaped(s) + seq![c] =~= escaped(s).push(c));
}

/// How a line is put together: the measurement with both tags, a space, all
/// fields, a space, and the time in nanoseconds.
pub proof fn lines_have_tags_fields_and_time(
    report: BinReport,
    network_fields: Seq<char>,
    media_fields: Seq<char>,
)
    ensures
        ({
            let tags = "teams_session_qoe"@ + ",client_ip="@ + escaped(report.client_ip@)
                + ",session_id="@ + escaped(report.session_id@);
            let fields = network_fields + ","@ + media_fields + ",session_age_ns="@ + dec(
                report.session_age_ns as nat,
            );
            line_of(report, network_fields, media_fields) == tags.push(' ') + fields.push(' ')
                + dec(report.timestamp_ns as nat)
        }),
{
    reveal_strlit("teams_session_qoe");
    reveal_strlit(",client_ip=");
    reveal_strlit("teams_session_qoe,client_ip=");
    reveal_strlit(" ");
    assert("teams_session_qoe,client_ip="@ =~= "teams_session_qoe"@ + ",client_ip="@);
    let tags = "teams_session_qoe"@ + ",client_ip="@ + escaped(report.client_ip@) + ",session_id="@
        + escaped(report.session_id@);
    let fields = network_fields + ","@ + media_fields + ",session_age_ns="@ + dec(
        report.session_age_ns as nat,
    );
    assert(line_of(report, network_fields, media_fields) =~= tags.push(' ') + fields.push(' ')
        + dec(report.timestamp_ns as nat));
}

/// A payload is its lines, one after the other, each with a line break behind it.
pub proof fn payloads_are_their_lines(lines: Seq<Seq<char>>, line: Seq<char>)
    ensures
        payload_of(Seq::empty()) == Seq::<char>::empty(),
        payload_of(lines.push(line)) == payload_of(lines) + line.push('\n'),
{
    reveal_strlit("\n");
    assert(lines.push(line).drop_last() =~= lines);
    assert(payload_of(lines) + line + "\n"@ =~= payload_of(lines) + line.push('\n'));
}

/// Looks that find a line add it, and looks that find nothing add nothing.
pub proof fn looks_find_their_lines(looks: Seq<Option<String>>, next: Option<String>)
    ensures
        found(Seq::empty()) == Seq::<Seq<char>>::empty(),
        match next {
            Some(line) => found(looks.push(next)) == found(looks).push(line@),
            None => found(looks.push(next)) == found(looks),
        },
{
    assert(looks.push(next).drop_last() =~= looks);
    assert(found(looks) + Seq::<Seq<char>>::empty() =~= found(looks));
    if let Some(line) = next {
        assert(found(looks) + seq![line@] =~= found(looks).push(line@));
    }
}

/// How many lines go into a payload behind the first: as many as are waiting, up
/// to 99.
pub proof fn payloads_hold_up_to_100_lines(looks: Seq<Option<String>>)
    requires
        exhausts(looks),
    ensures
        found(looks).len() <= 99,
        found(looks).len() < 99 ==> looks.len() > 0 && looks.last() is None,
        forall|i: int| 0 <= i < looks.len() - 1 ==> (#[trigger] looks[i]) is Some,
{
    lemma_found_len(looks);
}

/// Looks that all find a line, but perhaps the last, find that many lines.
proof fn lemma_found_len(looks: Seq<Option<String>>)
    requires
        forall|i: int| 0 <= i < looks.len() - 1 ==> (#[trigger] looks[i]) is Some,
    ensures
        found(looks).len() == if looks.len() > 0 && looks.last() is None {
            looks.len() - 1
        } else {
            looks.len() as int
        },
    decreases looks.len(),
{
    if looks.len() > 0 {
        let before = looks.drop_last();
        assert forall|i: int| 0 <= i < before.len() - 1 implies (#[trigger] before[i]) is Some by {
            assert(before[i] == looks[i]);
        }
        if before.len() > 0 {
            assert(before.last() == looks[looks.len() - 2]);
        }
        lemma_found_len(before);
    }
}

} // verus!
