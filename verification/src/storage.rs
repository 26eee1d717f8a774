//! The durable record format of shards and the canonical series, and the
//! file names they are stored under.
//!
//! One sample is one text line of eight comma-separated fields, in the fixed
//! order: block number, timestamp, the three ref_time ratios and the three
//! proof-size ratios (each ratio as a fixed-point decimal in thousandths).
//! Readers skip malformed lines silently and never fail the whole read.

use crate::api::Error;
use crate::text::all_digits;
use crate::text::ascii_to_string;
use crate::text::chars_of;
use crate::text::dec_value;
use crate::text::parse_ratio;
use crate::text::parse_u64;
use crate::text::push_dec_u64;
use crate::text::push_ratio;
use crate::text::spec_dec;
use crate::text::spec_parse_ratio;
use crate::text::spec_ratio;
use crate::text::spec_split;
use crate::text::split_bytes;
use crate::text::views_of;
use crate::types::DispatchClassConsumption;
use crate::types::ParaId;
use crate::types::Parachain;
use crate::types::RelayChain;
use crate::types::Timestamp;
use crate::types::WeightConsumption;
use vstd::prelude::*;

verus! {

/// The ASCII code of the field separator.
pub const COMMA: u8 = 0x2c;

/// The ASCII code of the record separator.
pub const NEWLINE: u8 = 0x0a;

/// The eight textual fields of one record, in storage order.
pub open spec fn spec_fields(s: WeightConsumption) -> Seq<Seq<u8>> {
    seq![
        spec_dec(s.block_number as nat),
        spec_dec(s.timestamp as nat),
        spec_ratio(s.ref_time.normal as nat),
        spec_ratio(s.ref_time.operational as nat),
        spec_ratio(s.ref_time.mandatory as nat),
        spec_ratio(s.proof_size.normal as nat),
        spec_ratio(s.proof_size.operational as nat),
        spec_ratio(s.proof_size.mandatory as nat),
    ]
}

/// One record line, without the trailing newline.
pub open spec fn spec_record_line(s: WeightConsumption) -> Seq<u8> {
    let f = spec_fields(s);
    f[0] + seq![COMMA] + f[1] + seq![COMMA] + f[2] + seq![COMMA] + f[3] + seq![COMMA] + f[4]
        + seq![COMMA] + f[5] + seq![COMMA] + f[6] + seq![COMMA] + f[7]
}

/// A well-formed block-number field: decimal digits naming a `u32`.
pub open spec fn valid_u32_field(f: Seq<u8>) -> bool {
    f.len() >= 1 && all_digits(f) && dec_value(f) <= u32::MAX
}

/// A well-formed timestamp field: decimal digits naming a `u64`.
pub open spec fn valid_u64_field(f: Seq<u8>) -> bool {
    f.len() >= 1 && all_digits(f) && dec_value(f) <= u64::MAX
}

/// A well-formed ratio field: a fixed-point decimal naming thousandths that
/// fit a `u64`.
pub open spec fn valid_ratio_field(f: Seq<u8>) -> bool {
    spec_parse_ratio(f) matches Some(n) && n <= u64::MAX
}

/// The thousandths a well-formed ratio field names.
pub open spec fn ratio_field_value(f: Seq<u8>) -> nat {
    match spec_parse_ratio(f) {
        Some(n) => n,
        None => 0,
    }
}

/// Reading one line: the sample it stands for, or nothing for a malformed
/// line (wrong field count, or a field that does not parse).
pub open spec fn spec_parse_line(line: Seq<u8>) -> Option<WeightConsumption> {
    let f = spec_split(line, COMMA);
    if f.len() == 8 && valid_u32_field(f[0]) && valid_u64_field(f[1]) && valid_ratio_field(f[2])
        && valid_ratio_field(f[3]) && valid_ratio_field(f[4]) && valid_ratio_field(f[5])
        && valid_ratio_field(f[6]) && valid_ratio_field(f[7]) {
        Some(
            WeightConsumption {
                block_number: dec_value(f[0]) as u32,
                timestamp: dec_value(f[1]) as u64,
                ref_time: DispatchClassConsumption {
                    normal: ratio_field_value(f[2]) as u64,
                    operational: ratio_field_value(f[3]) as u64,
                    mandatory: ratio_field_value(f[4]) as u64,
                },
                proof_size: DispatchClassConsumption {
                    normal: ratio_field_value(f[5]) as u64,
                    operational: ratio_field_value(f[6]) as u64,
                    mandatory: ratio_field_value(f[7]) as u64,
                },
            },
        )
    } else {
        None
    }
}

/// Reading a sequence of lines: the samples of the well-formed lines, in
/// order; malformed lines are skipped.
pub open spec fn spec_parse_lines(lines: Seq<Seq<u8>>) -> Seq<WeightConsumption>
    decreases lines.len(),
{
    if lines.len() == 0 {
        Seq::<WeightConsumption>::empty()
    } else {
        (match spec_parse_line(lines[0]) {
            Some(s) => seq![s],
            None => Seq::<WeightConsumption>::empty(),
        }) + spec_parse_lines(lines.drop_first())
    }
}

/// Reading a whole shard or canonical file: its newline-separated lines.
pub open spec fn spec_parse_series(content: Seq<u8>) -> Seq<WeightConsumption> {
    spec_parse_lines(spec_split(content, NEWLINE))
}

/// Writing a series: one record line plus newline per sample.
pub open spec fn spec_encode_series(samples: Seq<WeightConsumption>) -> Seq<u8>
    decreases samples.len(),
{
    if samples.len() == 0 {
        Seq::<u8>::empty()
    } else {
        spec_record_line(samples[0]) + seq![NEWLINE] + spec_encode_series(samples.drop_first())
    }
}

/// Encodes one sample as its record line, newline included.
pub fn encode_record(s: &WeightConsumption) -> (r: Vec<u8>)
    ensures
        r@ == spec_record_line(*s) + seq![NEWLINE],
{
    let mut out: Vec<u8> = Vec::new();
    push_dec_u64(&mut out, s.block_number as u64);
    out.push(COMMA);
    push_dec_u64(&mut out, s.timestamp);
    out.push(COMMA);
    push_ratio(&mut out, s.ref_time.normal);
    out.push(COMMA);
    push_ratio(&mut out, s.ref_time.operational);
    out.push(COMMA);
    push_ratio(&mut out, s.ref_time.mandatory);
    out.push(COMMA);
    push_ratio(&mut out, s.proof_size.normal);
    out.push(COMMA);
    push_ratio(&mut out, s.proof_size.operational);
    out.push(COMMA);
    push_ratio(&mut out, s.proof_size.mandatory);
    out.push(NEWLINE);
    proof {
        assert(out@ =~= spec_record_line(*s) + seq![NEWLINE]);
    }
    out
}

/// Encodes a whole series, one record line per sample.
pub fn encode_series(samples: &Vec<WeightConsumption>) -> (r: Vec<u8>)
    ensures
        r@ == spec_encode_series(samples@),
{
    let mut out: Vec<u8> = Vec::new();
    let mut i: usize = 0;
    proof {
        assert(samples@.subrange(0, 0) =~= Seq::<WeightConsumption>::empty());
    }
    while i < samples.len()
        invariant
            0 <= i <= samples@.len(),
            out@ == spec_encode_series(samples@.subrange(0, i as int)),
        decreases samples@.len() - i,
    {
        let mut line = encode_record(&samples[i]);
        out.append(&mut line);
        proof {
            lemma_encode_concat(samples@.subrange(0, i as int), seq![samples@[i as int]]);
            assert(samples@.subrange(0, i + 1) =~= samples@.subrange(0, i as int) + seq![
                samples@[i as int],
            ]);
            assert(seq![samples@[i as int]].drop_first() =~= Seq::<WeightConsumption>::empty());
            assert(spec_encode_series(Seq::<WeightConsumption>::empty()) =~= Seq::<u8>::empty());
            assert(spec_encode_series(seq![samples@[i as int]]) =~= spec_record_line(
                samples@[i as int],
            ) + seq![NEWLINE]);
            assert(out@ =~= spec_encode_series(samples@.subrange(0, i + 1)));
        }
        i = i + 1;
    }
    proof {
        assert(samples@.subrange(0, samples@.len() as int) =~= samples@);
    }
    out
}

/// Encoding a concatenation encodes the parts one after the other.
pub proof fn lemma_encode_concat(a: Seq<WeightConsumption>, b: Seq<WeightConsumption>)
    ensures
        spec_encode_series(a + b) == spec_encode_series(a) + spec_encode_series(b),
    decreases a.len(),
{
    if a.len() == 0 {
        assert(a + b =~= b);
        assert(spec_encode_series(a) =~= Seq::<u8>::empty());
        assert(spec_encode_series(a) + spec_encode_series(b) =~= spec_encode_series(b));
    } else {
        assert((a + b)[0] == a[0]);
        assert((a + b).drop_first() =~= a.drop_first() + b);
        lemma_encode_concat(a.drop_first(), b);
        assert(spec_encode_series(a + b) =~= spec_encode_series(a) + spec_encode_series(b));
    }
}

/// The eight fields of one record as strings, in storage order.
impl WeightConsumption {
    /// The record's eight textual fields, in storage order.
    pub fn to_csv(&self) -> (r: Vec<String>)
        ensures
            r@.len() == 8,
            forall|k: int| 0 <= k < 8 ==> (#[trigger] r@[k])@ == chars_of(spec_fields(*self)[k]),
    {
        let mut out: Vec<String> = Vec::new();
        out.push(crate::text::dec_string(self.block_number as u64));
        out.push(crate::text::dec_string(self.timestamp));
        out.push(crate::text::ratio_string(self.ref_time.normal));
        out.push(crate::text::ratio_string(self.ref_time.operational));
        out.push(crate::text::ratio_string(self.ref_time.mandatory));
        out.push(crate::text::ratio_string(self.proof_size.normal));
        out.push(crate::text::ratio_string(self.proof_size.operational));
        out.push(crate::text::ratio_string(self.proof_size.mandatory));
        out
    }
}

/// Every byte of a field is a digit or a decimal point.
pub open spec fn field_clean(f: Seq<u8>) -> bool {
    forall|i: int|
        0 <= i < f.len() ==> (crate::text::is_digit(#[trigger] f[i]) || f[i] == crate::text::DOT)
}

/// Every byte of a line is a digit, a decimal point or a comma.
pub open spec fn line_clean(l: Seq<u8>) -> bool {
    forall|i: int|
        0 <= i < l.len() ==> (crate::text::is_digit(#[trigger] l[i]) || l[i] == crate::text::DOT
            || l[i] == COMMA)
}

/// Every field of a record is clean: digits and decimal points only.
proof fn lemma_fields_clean(s: WeightConsumption)
    ensures
        field_clean(spec_fields(s)[0]),
        field_clean(spec_fields(s)[1]),
        field_clean(spec_fields(s)[2]),
        field_clean(spec_fields(s)[3]),
        field_clean(spec_fields(s)[4]),
        field_clean(spec_fields(s)[5]),
        field_clean(spec_fields(s)[6]),
        field_clean(spec_fields(s)[7]),
{
    crate::text::lemma_dec_round_trip(s.block_number as nat);
    crate::text::lemma_dec_round_trip(s.timestamp as nat);
    crate::text::lemma_ratio_round_trip(s.ref_time.normal as nat);
    crate::text::lemma_ratio_round_trip(s.ref_time.operational as nat);
    crate::text::lemma_ratio_round_trip(s.ref_time.mandatory as nat);
    crate::text::lemma_ratio_round_trip(s.proof_size.normal as nat);
    crate::text::lemma_ratio_round_trip(s.proof_size.operational as nat);
    crate::text::lemma_ratio_round_trip(s.proof_size.mandatory as nat);
}

/// Gluing a clean field onto a clean line keeps the line clean.
proof fn lemma_clean_glue(a: Seq<u8>, b: Seq<u8>)
    requires
        field_clean(a),
        line_clean(b),
    ensures
        line_clean(a + seq![COMMA] + b),
{
    let l = a + seq![COMMA] + b;
    assert forall|i: int|
        0 <= i < l.len() implies (crate::text::is_digit(#[trigger] l[i]) || l[i]
        == crate::text::DOT || l[i] == COMMA) by {
        if i < a.len() {
            assert(l[i] == a[i]);
        } else if i == a.len() {
            assert(l[i] == COMMA);
        } else {
            assert(l[i] == b[i - a.len() - 1]);
        }
    }
}

/// Reads one record line (without its newline).
pub fn parse_line(line: &[u8]) -> (r: Option<WeightConsumption>)
    ensures
        r == spec_parse_line(line@),
{
    let fields = split_bytes(line, COMMA);
    if fields.len() != 8 {
        return None;
    }
    let bn = match parse_u64(fields[0].as_slice()) {
        Some(v) => {
            if v > u32::MAX as u64 {
                return None;
            }
            v as u32
        },
        None => {
            proof {
                if valid_u32_field(spec_split(line@, COMMA)[0]) {
                    assert(dec_value(fields@[0]@) <= u32::MAX);
                }
            }
            return None;
        },
    };
    let ts = match parse_u64(fields[1].as_slice()) {
        Some(v) => v,
        None => {
            return None;
        },
    };
    let rt_n = match parse_ratio(fields[2].as_slice()) {
        Some(v) => v,
        None => {
            return None;
        },
    };
    let rt_o = match parse_ratio(fields[3].as_slice()) {
        Some(v) => v,
        None => {
            return None;
        },
    };
    let rt_m = match parse_ratio(fields[4].as_slice()) {
        Some(v) => v,
        None => {
            return None;
        },
    };
    let ps_n = match parse_ratio(fields[5].as_slice()) {
        Some(v) => v,
        None => {
            return None;
        },
    };
    let ps_o = match parse_ratio(fields[6].as_slice()) {
        Some(v) => v,
        None => {
            return None;
        },
    };
    let ps_m = match parse_ratio(fields[7].as_slice()) {
        Some(v) => v,
        None => {
            return None;
        },
    };
    Some(
        WeightConsumption {
            block_number: bn,
            timestamp: ts,
            ref_time: DispatchClassConsumption { normal: rt_n, operational: rt_o, mandatory: rt_m },
            proof_size: DispatchClassConsumption {
                normal: ps_n,
                operational: ps_o,
                mandatory: ps_m,
            },
        },
    )
}

/// Reading a concatenation of line lists reads the parts one after the other.
proof fn lemma_parse_lines_concat(a: Seq<Seq<u8>>, b: Seq<Seq<u8>>)
    ensures
        spec_parse_lines(a + b) == spec_parse_lines(a) + spec_parse_lines(b),
    decreases a.len(),
{
    if a.len() == 0 {
        assert(a + b =~= b);
        assert(spec_parse_lines(a) =~= Seq::<WeightConsumption>::empty());
        assert(spec_parse_lines(a) + spec_parse_lines(b) =~= spec_parse_lines(b));
    } else {
        assert((a + b)[0] == a[0]);
        assert((a + b).drop_first() =~= a.drop_first() + b);
        lemma_parse_lines_concat(a.drop_first(), b);
        assert(spec_parse_lines(a + b) =~= spec_parse_lines(a) + spec_parse_lines(b));
    }
}

/// Reads a whole shard or canonical file, skipping malformed lines; `None`
/// content means the file does not exist yet, which is an error distinct
/// from an existing file with no samples.
pub fn get_consumption(content: Option<&Vec<u8>>) -> (r: Result<Vec<WeightConsumption>, Error>)
    ensures
        match r {
            Ok(samples) => content matches Some(c) && samples@ == spec_parse_series(c@),
            Err(e) => content is None && e == Error::ConsumptionDataNotFound,
        },
{
    let c = match content {
        Some(c) => c,
        None => {
            return Err(Error::ConsumptionDataNotFound);
        },
    };
    let lines = split_bytes(c.as_slice(), NEWLINE);
    let ghost lineviews = views_of(lines@);
    let mut out: Vec<WeightConsumption> = Vec::new();
    let mut i: usize = 0;
    proof {
        assert(lineviews.subrange(0, 0) =~= Seq::<Seq<u8>>::empty());
        assert(spec_parse_lines(lineviews.subrange(0, 0)) =~= Seq::<WeightConsumption>::empty());
    }
    while i < lines.len()
        invariant
            0 <= i <= lines@.len(),
            lineviews == views_of(lines@),
            lineviews.len() == lines@.len(),
            forall|j: int| 0 <= j < lines@.len() ==> lineviews[j] == lines@[j]@,
            out@ == spec_parse_lines(lineviews.subrange(0, i as int)),
        decreases lines@.len() - i,
    {
        proof {
            lemma_parse_lines_concat(
                lineviews.subrange(0, i as int),
                seq![lineviews[i as int]],
            );
            assert(lineviews.subrange(0, i + 1) =~= lineviews.subrange(0, i as int) + seq![
                lineviews[i as int],
            ]);
            assert(seq![lineviews[i as int]].drop_first() =~= Seq::<Seq<u8>>::empty());
            assert(spec_parse_lines(Seq::<Seq<u8>>::empty()) =~= Seq::<WeightConsumption>::empty());
        }
        match parse_line(lines[i].as_slice()) {
            Some(s) => {
                out.push(s);
                proof {
                    assert(out@ =~= spec_parse_lines(lineviews.subrange(0, i + 1)));
                }
            },
            None => {
                proof {
                    assert(out@ =~= spec_parse_lines(lineviews.subrange(0, i + 1)));
                }
            },
        }
        i = i + 1;
    }
    proof {
        assert(lineviews.subrange(0, lineviews.len() as int) =~= lineviews);
    }
    Ok(out)
}


/// The eight fields split back out of a record line, whose bytes are digits,
/// decimal points and commas only.
/// Joining eight clean fields with commas and splitting on commas recovers
/// the fields.
proof fn lemma_join8_split(
    f0: Seq<u8>,
    f1: Seq<u8>,
    f2: Seq<u8>,
    f3: Seq<u8>,
    f4: Seq<u8>,
    f5: Seq<u8>,
    f6: Seq<u8>,
    f7: Seq<u8>,
)
    requires
        field_clean(f0),
        field_clean(f1),
        field_clean(f2),
        field_clean(f3),
        field_clean(f4),
        field_clean(f5),
        field_clean(f6),
        field_clean(f7),
    ensures
        spec_split(
            f0 + seq![COMMA] + f1 + seq![COMMA] + f2 + seq![COMMA] + f3 + seq![COMMA] + f4 + seq![
                COMMA,
            ] + f5 + seq![COMMA] + f6 + seq![COMMA] + f7,
            COMMA,
        ) == seq![f0, f1, f2, f3, f4, f5, f6, f7],
{
    let r7 = f7;
    let r6 = f6 + seq![COMMA] + r7;
    let r5 = f5 + seq![COMMA] + r6;
    let r4 = f4 + seq![COMMA] + r5;
    let r3 = f3 + seq![COMMA] + r4;
    let r2 = f2 + seq![COMMA] + r3;
    let r1 = f1 + seq![COMMA] + r2;
    let r0 = f0 + seq![COMMA] + r1;
    crate::text::lemma_split_no_sep(r7, COMMA);
    crate::text::lemma_split_concat(f6, r7, COMMA);
    crate::text::lemma_split_concat(f5, r6, COMMA);
    crate::text::lemma_split_concat(f4, r5, COMMA);
    crate::text::lemma_split_concat(f3, r4, COMMA);
    crate::text::lemma_split_concat(f2, r3, COMMA);
    crate::text::lemma_split_concat(f1, r2, COMMA);
    crate::text::lemma_split_concat(f0, r1, COMMA);
    assert(f0 + seq![COMMA] + f1 + seq![COMMA] + f2 + seq![COMMA] + f3 + seq![COMMA] + f4 + seq![
        COMMA,
    ] + f5 + seq![COMMA] + f6 + seq![COMMA] + f7 =~= r0);
    assert(spec_split(r0, COMMA) =~= seq![f0, f1, f2, f3, f4, f5, f6, f7]);
}

/// A join of eight clean fields holds digits, decimal points and commas only.
proof fn lemma_join8_clean(
    f0: Seq<u8>,
    f1: Seq<u8>,
    f2: Seq<u8>,
    f3: Seq<u8>,
    f4: Seq<u8>,
    f5: Seq<u8>,
    f6: Seq<u8>,
    f7: Seq<u8>,
)
    requires
        field_clean(f0),
        field_clean(f1),
        field_clean(f2),
        field_clean(f3),
        field_clean(f4),
        field_clean(f5),
        field_clean(f6),
        field_clean(f7),
    ensures
        line_clean(
            f0 + seq![COMMA] + f1 + seq![COMMA] + f2 + seq![COMMA] + f3 + seq![COMMA] + f4 + seq![
                COMMA,
            ] + f5 + seq![COMMA] + f6 + seq![COMMA] + f7,
        ),
{
    let r7 = f7;
    let r6 = f6 + seq![COMMA] + r7;
    let r5 = f5 + seq![COMMA] + r6;
    let r4 = f4 + seq![COMMA] + r5;
    let r3 = f3 + seq![COMMA] + r4;
    let r2 = f2 + seq![COMMA] + r3;
    let r1 = f1 + seq![COMMA] + r2;
    let r0 = f0 + seq![COMMA] + r1;
    assert(line_clean(r7));
    lemma_clean_glue(f6, r7);
    lemma_clean_glue(f5, r6);
    lemma_clean_glue(f4, r5);
    lemma_clean_glue(f3, r4);
    lemma_clean_glue(f2, r3);
    lemma_clean_glue(f1, r2);
    lemma_clean_glue(f0, r1);
    assert(f0 + seq![COMMA] + f1 + seq![COMMA] + f2 + seq![COMMA] + f3 + seq![COMMA] + f4 + seq![
        COMMA,
    ] + f5 + seq![COMMA] + f6 + seq![COMMA] + f7 =~= r0);
}

/// The eight fields split back out of a record line.
proof fn lemma_line_split(s: WeightConsumption)
    ensures
        spec_split(spec_record_line(s), COMMA) == spec_fields(s),
{
    lemma_fields_clean(s);
    let f = spec_fields(s);
    lemma_join8_split(f[0], f[1], f[2], f[3], f[4], f[5], f[6], f[7]);
    assert(seq![f[0], f[1], f[2], f[3], f[4], f[5], f[6], f[7]] =~= f);
}

/// A record line holds digits, decimal points and commas only.
proof fn lemma_line_clean(s: WeightConsumption)
    ensures
        line_clean(spec_record_line(s)),
{
    lemma_fields_clean(s);
    let f = spec_fields(s);
    lemma_join8_clean(f[0], f[1], f[2], f[3], f[4], f[5], f[6], f[7]);
}

/// Writing one sample and reading the line back yields the sample; the line
/// holds no newline.
pub proof fn lemma_line_round_trip(s: WeightConsumption)
    ensures
        spec_parse_line(spec_record_line(s)) == Some(s),
        forall|i: int|
            0 <= i < spec_record_line(s).len() ==> #[trigger] spec_record_line(s)[i] != NEWLINE,
{
    lemma_line_split(s);
    lemma_line_clean(s);
    crate::text::lemma_dec_round_trip(s.block_number as nat);
    crate::text::lemma_dec_round_trip(s.timestamp as nat);
    crate::text::lemma_ratio_round_trip(s.ref_time.normal as nat);
    crate::text::lemma_ratio_round_trip(s.ref_time.operational as nat);
    crate::text::lemma_ratio_round_trip(s.ref_time.mandatory as nat);
    crate::text::lemma_ratio_round_trip(s.proof_size.normal as nat);
    crate::text::lemma_ratio_round_trip(s.proof_size.operational as nat);
    crate::text::lemma_ratio_round_trip(s.proof_size.mandatory as nat);
    let f = spec_split(spec_record_line(s), COMMA);
    assert(f == spec_fields(s));
    assert(valid_u32_field(f[0]));
    assert(valid_u64_field(f[1]));
    assert(valid_ratio_field(f[2]) && ratio_field_value(f[2]) == s.ref_time.normal as nat);
    assert(valid_ratio_field(f[3]) && ratio_field_value(f[3]) == s.ref_time.operational as nat);
    assert(valid_ratio_field(f[4]) && ratio_field_value(f[4]) == s.ref_time.mandatory as nat);
    assert(valid_ratio_field(f[5]) && ratio_field_value(f[5]) == s.proof_size.normal as nat);
    assert(valid_ratio_field(f[6]) && ratio_field_value(f[6]) == s.proof_size.operational as nat);
    assert(valid_ratio_field(f[7]) && ratio_field_value(f[7]) == s.proof_size.mandatory as nat);
    assert(spec_parse_line(spec_record_line(s)) == Some(s));
}

/// A series written out and read back via the query engine's reader yields
/// the same samples, field for field.
pub proof fn lemma_series_round_trip(samples: Seq<WeightConsumption>)
    ensures
        spec_parse_series(spec_encode_series(samples)) == samples,
    decreases samples.len(),
{
    if samples.len() == 0 {
        let e = Seq::<u8>::empty();
        assert(spec_encode_series(samples) =~= e);
        assert(spec_split(e, NEWLINE) =~= seq![e]);
        assert(spec_split(e, COMMA) =~= seq![e]);
        assert(spec_split(e, COMMA).len() == 1);
        assert(spec_parse_line(e) is None);
        assert(seq![e].drop_first() =~= Seq::<Seq<u8>>::empty());
        assert(spec_parse_lines(Seq::<Seq<u8>>::empty()) =~= Seq::<WeightConsumption>::empty());
        assert(spec_parse_series(spec_encode_series(samples)) =~= samples);
    } else {
        let s0 = samples[0];
        let rest = samples.drop_first();
        lemma_series_round_trip(rest);
        lemma_line_round_trip(s0);
        let line = spec_record_line(s0);
        let tail = spec_encode_series(rest);
        assert(spec_encode_series(samples) == line + seq![NEWLINE] + tail);
        crate::text::lemma_split_concat(line, tail, NEWLINE);
        let tail_lines = spec_split(tail, NEWLINE);
        assert(spec_split(spec_encode_series(samples), NEWLINE) == seq![line] + tail_lines);
        lemma_parse_lines_concat(seq![line], tail_lines);
        assert(seq![line].drop_first() =~= Seq::<Seq<u8>>::empty());
        assert(spec_parse_lines(Seq::<Seq<u8>>::empty()) =~= Seq::<WeightConsumption>::empty());
        assert(spec_parse_lines(seq![line]) =~= seq![s0]);
        assert(spec_parse_series(spec_encode_series(samples)) =~= seq![s0] + rest);
        assert(seq![s0] + rest =~= samples);
    }
}


/// The root directory name with trailing path separators removed.
pub open spec fn spec_trim_slashes(s: Seq<char>) -> Seq<char>
    decreases s.len(),
{
    if s.len() > 0 && s.last() == '/' {
        spec_trim_slashes(s.drop_last())
    } else {
        s
    }
}

/// The directory one collector instance writes into: `<root>/out` for the
/// consolidated output, `<root>/out-<i>` for instance `i`.
pub open spec fn spec_output_directory(root: Seq<char>, rpc_index: Option<usize>) -> Seq<char> {
    match rpc_index {
        Some(i) => spec_trim_slashes(root) + "/out-"@ + chars_of(spec_dec(i as nat)),
        None => spec_trim_slashes(root) + "/out"@,
    }
}

/// The file name of a subject's series: `<relay-chain>-<para-id>.csv`.
pub open spec fn spec_csv_file_name(relay_chain: RelayChain, para_id: ParaId) -> Seq<char> {
    relay_chain.spec_name() + "-"@ + chars_of(spec_dec(para_id as nat)) + ".csv"@
}

/// The full path of a subject's shard or canonical file under the configured
/// output root.
pub open spec fn spec_output_file_path(
    root: Seq<char>,
    para: crate::types::ParachainData,
    rpc_index: Option<usize>,
) -> Seq<char> {
    spec_output_directory(root, rpc_index) + "/"@ + spec_csv_file_name(
        para.relay_chain,
        para.para_id,
    )
}

/// Renders the output directory of one collector instance under the
/// configured root, with trailing path separators of the root trimmed.
pub fn output_directory(root: &str, rpc_index: Option<usize>) -> (r: String)
    ensures
        r@ == spec_output_directory(root@, rpc_index),
{
    let mut end = root.unicode_len();
    proof {
        assert(root@.subrange(0, root@.len() as int) =~= root@);
    }
    while end > 0 && root.get_char(end - 1) == '/'
        invariant
            0 <= end <= root@.len(),
            spec_trim_slashes(root@) == spec_trim_slashes(root@.subrange(0, end as int)),
        decreases end,
    {
        proof {
            let cur = root@.subrange(0, end as int);
            assert(cur.last() == root@[end - 1]);
            assert(cur.drop_last() =~= root@.subrange(0, end - 1));
        }
        end = end - 1;
    }
    proof {
        let cur = root@.subrange(0, end as int);
        if end > 0 {
            assert(cur.last() == root@[end - 1]);
        }
        assert(spec_trim_slashes(cur) == cur);
    }
    let base = root.substring_char(0, end);
    let mut out = base.to_owned();
    match rpc_index {
        Some(i) => {
            out.append("/out-");
            let num = crate::text::dec_string(i as u64);
            out.append(num.as_str());
        },
        None => {
            out.append("/out");
        },
    }
    proof {
        assert(out@ =~= spec_output_directory(root@, rpc_index));
    }
    out
}

/// Renders the path of a subject's shard (for a collector instance) or
/// canonical file (for none) under the configured output root.
pub fn output_file_path(root: &str, para: &Parachain, rpc_index: Option<usize>) -> (r: String)
    ensures
        r@ == spec_output_file_path(root@, para@, rpc_index),
{
    let mut out = output_directory(root, rpc_index);
    out.append("/");
    out.append(para.relay_chain.name());
    out.append("-");
    let num = crate::text::dec_string(para.para_id as u64);
    out.append(num.as_str());
    out.append(".csv");
    proof {
        assert(out@ =~= spec_output_file_path(root@, para@, rpc_index));
    }
    out
}

/// Renders the path of a subject's series file under the fixed `out`
/// directory next to the process.
pub fn file_path(para: &Parachain) -> (r: String)
    ensures
        r@ == "out/"@ + spec_csv_file_name(para@.relay_chain, para@.para_id),
{
    let mut out = String::new();
    out.append("out/");
    out.append(para.relay_chain.name());
    out.append("-");
    let num = crate::text::dec_string(para.para_id as u64);
    out.append(num.as_str());
    out.append(".csv");
    proof {
        assert(out@ =~= "out/"@ + spec_csv_file_name(para@.relay_chain, para@.para_id));
    }
    out
}

} // verus!
