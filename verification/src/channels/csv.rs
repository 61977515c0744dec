//! The CSV form of RTP records.

use crate::models::rtp_record::RtpRecord;
#[allow(unused_imports)]
use crate::models::rtp_record::RecordModel;
use crate::text::{push_dec, push_upper_hex_fixed};
#[allow(unused_imports)]
use crate::text::{dec, upper_hex_fixed};
use vstd::prelude::*;

verus! {

/// The first line of a record file.
pub const CSV_HEADER: &'static str =
    "arrival_epoch_ns,src_ip,dst_ip,ip_proto,ip_len,src_port,dst_port,udp_len,rtp_ssrc,rtp_timestamp,rtp_seq,rtp_pt,rtp_marker";

/// The line of a record: decimal columns in the order of the header, the SSRC
/// as eight hexadecimal digits after `0x`, the marker as 1 or 0.
pub open spec fn csv_line(r: RecordModel) -> Seq<char> {
    dec(r.arrival_epoch_ns as nat) + ","@ + r.src_ip + ","@ + r.dst_ip + ","@ + dec(
        r.ip_proto as nat,
    ) + ","@ + dec(r.ip_len as nat) + ","@ + dec(r.src_port as nat) + ","@ + dec(
        r.dst_port as nat,
    ) + ","@ + dec(r.udp_len as nat) + ",0x"@ + upper_hex_fixed(r.ssrc as nat, 8) + ","@ + dec(
        r.rtp_timestamp as nat,
    ) + ","@ + dec(r.seq_num as nat) + ","@ + dec(r.payload_type as nat) + if r.marker {
        ",1"@
    } else {
        ",0"@
    }
}

/// The CSV line of a record.
pub fn csv_row(r: &RtpRecord) -> (line: String)
    ensures
        line@ == csv_line(r@),
{
    let mut line = String::new();
    push_dec(&mut line, r.arrival_epoch_ns);
    line.append(",");
    line.append(r.src_ip.as_str());
    line.append(",");
    line.append(r.dst_ip.as_str());
    line.append(",");
    push_dec(&mut line, r.ip_proto as u64);
    line.append(",");
    push_dec(&mut line, r.ip_len as u64);
    line.append(",");
    push_dec(&mut line, r.src_port as u64);
    line.append(",");
    push_dec(&mut line, r.dst_port as u64);
    line.append(",");
    push_dec(&mut line, r.udp_len as u64);
    line.append(",0x");
    push_upper_hex_fixed(&mut line, r.ssrc as u64, 8);
    line.append(",");
    push_dec(&mut line, r.rtp_timestamp as u64);
    line.append(",");
    push_dec(&mut line, r.seq_num as u64);
    line.append(",");
    push_dec(&mut line, r.payload_type as u64);
    if r.marker {
        line.append(",1");
    } else {
        line.append(",0");
    }
    assert(line@ =~= csv_line(r@));
    line
}

/// The columns of a line: what stands between the commas.
pub open spec fn columns(line: Seq<char>) -> Seq<Seq<char>>
    decreases line.len(),
{
    if line.len() == 0 {
        seq![Seq::empty()]
    } else {
        let before = columns(line.drop_last());
        if line.last() == ',' {
            before.push(Seq::empty())
        } else {
            before.drop_last().push(before.last().push(line.last()))
        }
    }
}

/// Whether a text holds no comma.
pub open spec fn comma_free(s: Seq<char>) -> bool {
    forall|i: int| 0 <= i < s.len() ==> #[trigger] s[i] != ','
}

/// Text without a comma extends the last column.
proof fn lemma_extend_column(line: Seq<char>, s: Seq<char>)
    requires
        comma_free(s),
    ensures
        columns(line).len() > 0,
        columns(line + s) == columns(line).drop_last().push(columns(line).last() + s),
    decreases line.len() + s.len(),
{
    if line.len() > 0 {
        assert(comma_free(Seq::<char>::empty()));
        lemma_extend_column(line.drop_last(), Seq::empty());
    }
    if s.len() == 0 {
        assert(line + s =~= line);
        assert(columns(line).last() + s =~= columns(line).last());
        assert(columns(line) =~= columns(line).drop_last().push(columns(line).last()));
    } else {
        lemma_extend_column(line, s.drop_last());
        let c = columns(line);
        assert((line + s).drop_last() =~= line + s.drop_last());
        let before = columns(line + s.drop_last());
        assert(before.drop_last() =~= c.drop_last());
        assert(before.last().push(s.last()) =~= c.last() + s);
    }
}

/// Text behind a comma is one more column.
proof fn lemma_next_column(line: Seq<char>, s: Seq<char>)
    requires
        comma_free(s),
    ensures
        columns(line + ","@ + s) == columns(line).push(s),
{
    reveal_strlit(",");
    let cut = line + ","@;
    assert(cut.drop_last() =~= line);
    let c = columns(line);
    assert(columns(cut) == c.push(Seq::empty()));
    lemma_extend_column(cut, s);
    assert(columns(cut).drop_last() =~= c);
    assert(columns(cut).last() + s =~= s);
}

/// Numbers hold no comma.
proof fn lemma_numbers_have_no_comma(n: nat, width: nat)
    ensures
        comma_free(dec(n)),
        comma_free(upper_hex_fixed(n, width)),
    decreases width,
{
    crate::text::decimals_are_written_by_digits(n);
    if width > 0 {
        lemma_numbers_have_no_comma(n / 16, (width - 1) as nat);
    }
    assert forall|i: int| 0 <= i < dec(n).len() implies #[trigger] dec(n)[i] != ',' by {
        assert('0' as int <= dec(n)[i] as int);
    }
}

/// The columns of a line, read back: thirteen of them, in the order of the header.
pub proof fn rows_have_the_columns_of_the_header(r: RecordModel)
    requires
        comma_free(r.src_ip),
        comma_free(r.dst_ip),
    ensures
        columns(csv_line(r)) == seq![
            dec(r.arrival_epoch_ns as nat),
            r.src_ip,
            r.dst_ip,
            dec(r.ip_proto as nat),
            dec(r.ip_len as nat),
            dec(r.src_port as nat),
            dec(r.dst_port as nat),
            dec(r.udp_len as nat),
            seq!['0', 'x'] + upper_hex_fixed(r.ssrc as nat, 8),
            dec(r.rtp_timestamp as nat),
            dec(r.seq_num as nat),
            dec(r.payload_type as nat),
            if r.marker {
                seq!['1']
            } else {
                seq!['0']
            },
        ],
{
    reveal_strlit(",");
    reveal_strlit(",0x");
    reveal_strlit(",1");
    reveal_strlit(",0");
    let ssrc = seq!['0', 'x'] + upper_hex_fixed(r.ssrc as nat, 8);
    let marker = if r.marker {
        seq!['1']
    } else {
        seq!['0']
    };
    lemma_numbers_have_no_comma(r.arrival_epoch_ns as nat, 0);
    lemma_numbers_have_no_comma(r.ip_proto as nat, 0);
    lemma_numbers_have_no_comma(r.ip_len as nat, 0);
    lemma_numbers_have_no_comma(r.src_port as nat, 0);
    lemma_numbers_have_no_comma(r.dst_port as nat, 0);
    lemma_numbers_have_no_comma(r.udp_len as nat, 0);
    lemma_numbers_have_no_comma(r.ssrc as nat, 8);
    lemma_numbers_have_no_comma(r.rtp_timestamp as nat, 0);
    lemma_numbers_have_no_comma(r.seq_num as nat, 0);
    lemma_numbers_have_no_comma(r.payload_type as nat, 0);
    assert(comma_free(ssrc)) by {
        assert forall|i: int| 0 <= i < ssrc.len() implies #[trigger] ssrc[i] != ',' by {
            if i >= 2 {
                assert(ssrc[i] == upper_hex_fixed(r.ssrc as nat, 8)[i - 2]);
            }
        }
    }
    let c0 = dec(r.arrival_epoch_ns as nat);
    let c1 = c0 + ","@ + r.src_ip;
    let c2 = c1 + ","@ + r.dst_ip;
    let c3 = c2 + ","@ + dec(r.ip_proto as nat);
    let c4 = c3 + ","@ + dec(r.ip_len as nat);
    let c5 = c4 + ","@ + dec(r.src_port as nat);
    let c6 = c5 + ","@ + dec(r.dst_port as nat);
    let c7 = c6 + ","@ + dec(r.udp_len as nat);
    let c8 = c7 + ","@ + ssrc;
    let c9 = c8 + ","@ + dec(r.rtp_timestamp as nat);
    let c10 = c9 + ","@ + dec(r.seq_num as nat);
    let c11 = c10 + ","@ + dec(r.payload_type as nat);
    let c12 = c11 + ","@ + marker;
    assert(c8 =~= c7 + ",0x"@ + upper_hex_fixed(r.ssrc as nat, 8));
    assert(csv_line(r) =~= c12);
    lemma_extend_column(Seq::empty(), c0);
    assert(Seq::<char>::empty() + c0 =~= c0);
    assert(columns(Seq::<char>::empty()) == seq![Seq::<char>::empty()]);
    assert(columns(c0) =~= seq![c0]);
    lemma_next_column(c0, r.src_ip);
    lemma_next_column(c1, r.dst_ip);
    lemma_next_column(c2, dec(r.ip_proto as nat));
    lemma_next_column(c3, dec(r.ip_len as nat));
    lemma_next_column(c4, dec(r.src_port as nat));
    lemma_next_column(c5, dec(r.dst_port as nat));
    lemma_next_column(c6, dec(r.udp_len as nat));
    lemma_next_column(c7, ssrc);
    lemma_next_column(c8, dec(r.rtp_timestamp as nat));
    lemma_next_column(c9, dec(r.seq_num as nat));
    lemma_next_column(c10, dec(r.payload_type as nat));
    lemma_next_column(c11, marker);
    assert(columns(c12) =~= seq![
        c0,
        r.src_ip,
        r.dst_ip,
        dec(r.ip_proto as nat),
        dec(r.ip_len as nat),
        dec(r.src_port as nat),
        dec(r.dst_port as nat),
        dec(r.udp_len as nat),
        ssrc,
        dec(r.rtp_timestamp as nat),
        dec(r.seq_num as nat),
        dec(r.payload_type as nat),
        marker,
    ]);
}

/// The header names thirteen columns.
pub proof fn the_header_names_the_columns()
    ensures
        columns(CSV_HEADER@) == seq![
            "arrival_epoch_ns"@,
            "src_ip"@,
            "dst_ip"@,
            "ip_proto"@,
            "ip_len"@,
            "src_port"@,
            "dst_port"@,
            "udp_len"@,
            "rtp_ssrc"@,
            "rtp_timestamp"@,
            "rtp_seq"@,
            "rtp_pt"@,
            "rtp_marker"@,
        ],
{
    reveal_strlit(",");
    reveal_strlit("arrival_epoch_ns");
    reveal_strlit("src_ip");
    reveal_strlit("dst_ip");
    reveal_strlit("ip_proto");
    reveal_strlit("ip_len");
    reveal_strlit("src_port");
    reveal_strlit("dst_port");
    reveal_strlit("udp_len");
    reveal_strlit("rtp_ssrc");
    reveal_strlit("rtp_timestamp");
    reveal_strlit("rtp_seq");
    reveal_strlit("rtp_pt");
    reveal_strlit("rtp_marker");
    reveal_strlit(
        "arrival_epoch_ns,src_ip,dst_ip,ip_proto,ip_len,src_port,dst_port,udp_len,rtp_ssrc,rtp_timestamp,rtp_seq,rtp_pt,rtp_marker",
    );
    let c0 = "arrival_epoch_ns"@;
    let c1 = c0 + ","@ + "src_ip"@;
    let c2 = c1 + ","@ + "dst_ip"@;
    let c3 = c2 + ","@ + "ip_proto"@;
    let c4 = c3 + ","@ + "ip_len"@;
    let c5 = c4 + ","@ + "src_port"@;
    let c6 = c5 + ","@ + "dst_port"@;
    let c7 = c6 + ","@ + "udp_len"@;
    let c8 = c7 + ","@ + "rtp_ssrc"@;
    let c9 = c8 + ","@ + "rtp_timestamp"@;
    let c10 = c9 + ","@ + "rtp_seq"@;
    let c11 = c10 + ","@ + "rtp_pt"@;
    let c12 = c11 + ","@ + "rtp_marker"@;
    assert(CSV_HEADER@ =~= c12);
    lemma_extend_column(Seq::empty(), c0);
    assert(Seq::<char>::empty() + c0 =~= c0);
    assert(columns(Seq::<char>::empty()) == seq![Seq::<char>::empty()]);
    assert(columns(c0) =~= seq![c0]);
    lemma_next_column(c0, "src_ip"@);
    lemma_next_column(c1, "dst_ip"@);
    lemma_next_column(c2, "ip_proto"@);
    lemma_next_column(c3, "ip_len"@);
    lemma_next_column(c4, "src_port"@);
    lemma_next_column(c5, "dst_port"@);
    lemma_next_column(c6, "udp_len"@);
    lemma_next_column(c7, "rtp_ssrc"@);
    lemma_next_column(c8, "rtp_timestamp"@);
    lemma_next_column(c9, "rtp_seq"@);
    lemma_next_column(c10, "rtp_pt"@);
    lemma_next_column(c11, "rtp_marker"@);
    assert(columns(c12) =~= seq![
        c0,
        "src_ip"@,
        "dst_ip"@,
        "ip_proto"@,
        "ip_len"@,
        "src_port"@,
        "dst_port"@,
        "udp_len"@,
        "rtp_ssrc"@,
        "rtp_timestamp"@,
        "rtp_seq"@,
        "rtp_pt"@,
        "rtp_marker"@,
    ]);
}

} // verus!
