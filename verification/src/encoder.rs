//! Wire encodings for aggregated metrics.
//!
//! Both encodings are specified byte for byte.  A line-protocol record is
//! `<measurement>[,<key>=<value>]* <field>=<n>[suffix][,...] <timestamp>\n`;
//! integer fields carry a `u` suffix, the one float field (a histogram's
//! mean) an `f` suffix.  A JSON record is one flattened object per line,
//! `{"timestamp":..,"value":..,"name":..,"tags":{..}}`.

use vstd::prelude::*;
use vstd::slice::slice_index_get;
use vstd::utf8::encode_utf8;

verus! {

/// ASCII bytes used by the encodings.
pub const COMMA: u8 = 44;

pub const EQUALS: u8 = 61;

pub const SPACE: u8 = 32;

pub const NEWLINE: u8 = 10;


/// The bytes of a string: its UTF-8 encoding.
pub open spec fn str_bytes(s: Seq<char>) -> Seq<u8> {
    encode_utf8(s)
}

/// Decimal digits of `n`, most significant first.
pub open spec fn dec_digits(n: nat) -> Seq<u8>
    decreases n,
{
    if n < 10 {
        seq![(0x30 + n) as u8]
    } else {
        dec_digits(n / 10).push((0x30 + n % 10) as u8)
    }
}

proof fn lemma_reverse_push<A>(s: Seq<A>, x: A)
    ensures
        s.push(x).reverse() =~= seq![x] + s.reverse(),
{
}

/// Appends the decimal digits of `n`.
pub fn fmt_u64(n: u64, dst: &mut Vec<u8>)
    ensures
        final(dst)@ == old(dst)@ + dec_digits(n as nat),
{
    let mut tmp: Vec<u8> = Vec::new();
    let mut m: u64 = n;
    while m >= 10
        invariant
            dec_digits(n as nat) =~= dec_digits(m as nat) + tmp@.reverse(),
        decreases m,
    {
        let d: u8 = (m % 10) as u8 + 0x30;
        proof {
            lemma_reverse_push(tmp@, d);
            assert(dec_digits(m as nat) =~= dec_digits(m as nat / 10).push((0x30 + m as nat
                % 10) as u8));
            assert(dec_digits(n as nat) =~= dec_digits(m as nat / 10) + (seq![d]
                + tmp@.reverse()));
        }
        tmp.push(d);
        m = m / 10;
    }
    let d: u8 = m as u8 + 0x30;
    proof {
        lemma_reverse_push(tmp@, d);
        assert(dec_digits(m as nat) =~= seq![d]);
        assert(dec_digits(n as nat) =~= (tmp@.push(d)).reverse());
    }
    tmp.push(d);
    let mut i: usize = 0;
    let len = tmp.len();
    while i < len
        invariant
            i <= len,
            len == tmp@.len(),
            dec_digits(n as nat) =~= tmp@.reverse(),
            dst@ == old(dst)@ + tmp@.reverse().take(i as int),
        decreases len - i,
    {
        let b = tmp[len - 1 - i];
        proof {
            assert(tmp@.reverse()[i as int] == tmp@[len - 1 - i]);
            assert(tmp@.reverse().take(i + 1) =~= tmp@.reverse().take(i as int).push(b));
        }
        dst.push(b);
        i = i + 1;
    }
    proof {
        assert(tmp@.reverse().take(tmp@.len() as int) =~= tmp@.reverse());
    }
}

/// Appends a byte slice.
pub fn push_bytes(dst: &mut Vec<u8>, src: &[u8])
    ensures
        final(dst)@ == old(dst)@ + src@,
{
    let mut i: usize = 0;
    let len = src.len();
    while i < len
        invariant
            i <= len,
            len == src@.len(),
            dst@ == old(dst)@ + src@.take(i as int),
        decreases len - i,
    {
        let b = *slice_index_get(src, i);
        proof {
            assert(src@.take(i + 1) =~= src@.take(i as int).push(src@[i as int]));
        }
        dst.push(b);
        i = i + 1;
    }
    proof {
        assert(src@.take(src@.len() as int) =~= src@);
    }
}

/// Appends a string's UTF-8 bytes.
pub fn push_str_bytes(dst: &mut Vec<u8>, s: &str)
    ensures
        final(dst)@ == old(dst)@ + str_bytes(s@),
{
    push_bytes(dst, s.as_bytes());
}

/// One encoded tag: `,key=value`.
pub open spec fn encode_tag(t: (Seq<u8>, Seq<u8>)) -> Seq<u8> {
    seq![COMMA] + t.0 + seq![EQUALS] + t.1
}

/// All tags of a record, in sequence order.
pub open spec fn encode_tag_list(tags: Seq<(Seq<u8>, Seq<u8>)>) -> Seq<u8>
    decreases tags.len(),
{
    if tags.len() == 0 {
        Seq::empty()
    } else {
        encode_tag_list(tags.drop_last()) + encode_tag(tags.last())
    }
}

/// The byte-level view of a tag sequence.
pub open spec fn tags_bytes(tags: Seq<(Seq<char>, Seq<char>)>) -> Seq<(Seq<u8>, Seq<u8>)> {
    Seq::new(tags.len(), |i: int| (str_bytes(tags[i].0), str_bytes(tags[i].1)))
}

/// Appends `,key=value` for every tag.
pub fn push_tag_list(dst: &mut Vec<u8>, tags: &Vec<(String, String)>)
    ensures
        final(dst)@ == old(dst)@ + encode_tag_list(tags_bytes(tags.deep_view())),
{
    let ghost tv = tags_bytes(tags.deep_view());
    let mut j: usize = 0;
    while j < tags.len()
        invariant
            j <= tags@.len(),
            tv == tags_bytes(tags.deep_view()),
            tv.len() == tags@.len(),
            dst@ == old(dst)@ + encode_tag_list(tv.take(j as int)),
        decreases tags@.len() - j,
    {
        dst.push(COMMA);
        push_str_bytes(dst, tags[j].0.as_str());
        dst.push(EQUALS);
        push_str_bytes(dst, tags[j].1.as_str());
        proof {
            assert(tags.deep_view()[j as int] == (tags@[j as int].0@, tags@[j as int].1@));
            assert(tv[j as int] == (str_bytes(tags@[j as int].0@), str_bytes(tags@[j
                as int].1@)));
            assert(tv.take(j + 1).drop_last() =~= tv.take(j as int));
            assert(tv.take(j + 1).last() == tv[j as int]);
            assert(dst@ =~= old(dst)@ + encode_tag_list(tv.take(j + 1)));
        }
        j = j + 1;
    }
    proof {
        assert(tv.take(tv.len() as int) =~= tv);
    }
}

/// The field section opener of a counter record: `" value="`.
pub open spec fn field_value_prefix() -> Seq<u8> {
    seq![32u8, 118u8, 97u8, 108u8, 117u8, 101u8, 61u8]
}

/// A complete line-protocol counter record:
/// `<name>[,k=v]* value=<value>u <timestamp>\n`.
pub open spec fn counter_line(
    name: Seq<u8>,
    tags: Seq<(Seq<u8>, Seq<u8>)>,
    value: nat,
    timestamp: nat,
) -> Seq<u8> {
    name + encode_tag_list(tags) + field_value_prefix() + dec_digits(value) + seq![117u8, 32u8]
        + dec_digits(timestamp) + seq![NEWLINE]
}

/// Appends one line-protocol counter record.
pub fn encode_counter_line(
    name: &str,
    tags: &Vec<(String, String)>,
    value: u64,
    timestamp: u64,
    dst: &mut Vec<u8>,
)
    ensures
        final(dst)@ == old(dst)@ + counter_line(
            str_bytes(name@),
            tags_bytes(tags.deep_view()),
            value as nat,
            timestamp as nat,
        ),
{
    push_str_bytes(dst, name);
    push_tag_list(dst, tags);
    push_bytes(dst, &[32u8, 118u8, 97u8, 108u8, 117u8, 101u8, 61u8]);
    fmt_u64(value, dst);
    push_bytes(dst, &[117u8, 32u8]);
    fmt_u64(timestamp, dst);
    dst.push(NEWLINE);
    proof {
        assert(dst@ =~= old(dst)@ + counter_line(
            str_bytes(name@),
            tags_bytes(tags.deep_view()),
            value as nat,
            timestamp as nat,
        ));
    }
}

/// A histogram snapshot's statistics, as plain values.  The mean is carried
/// as already-formatted text, since its computation is floating-point work
/// that happens outside this crate's verified core.
pub struct HistogramStats {
    pub count: u64,
    pub min: u64,
    pub max: u64,
    pub mean_text: String,
    pub p50: u64,
    pub p75: u64,
    pub p90: u64,
    pub p95: u64,
    pub p99: u64,
    pub p999: u64,
    pub p9999: u64,
}

/// The field section of a histogram record, in its fixed order:
/// count, min, max, mean, p50, p75, p90, p95, p99, p999, p9999.
pub open spec fn histogram_fields(stats: HistogramStats) -> Seq<u8> {
    seq![32u8, 99u8, 111u8, 117u8, 110u8, 116u8, 61u8]  // " count="
     + dec_digits(stats.count as nat) + seq![117u8, 44u8, 109u8, 105u8, 110u8, 61u8]  // "u,min="
     + dec_digits(stats.min as nat) + seq![117u8, 44u8, 109u8, 97u8, 120u8, 61u8]  // "u,max="
     + dec_digits(stats.max as nat) + seq![117u8, 44u8, 109u8, 101u8, 97u8, 110u8, 61u8]  // "u,mean="
     + str_bytes(stats.mean_text@) + seq![102u8, 44u8, 112u8, 53u8, 48u8, 61u8]  // "f,p50="
     + dec_digits(stats.p50 as nat) + seq![117u8, 44u8, 112u8, 55u8, 53u8, 61u8]  // "u,p75="
     + dec_digits(stats.p75 as nat) + seq![117u8, 44u8, 112u8, 57u8, 48u8, 61u8]  // "u,p90="
     + dec_digits(stats.p90 as nat) + seq![117u8, 44u8, 112u8, 57u8, 53u8, 61u8]  // "u,p95="
     + dec_digits(stats.p95 as nat) + seq![117u8, 44u8, 112u8, 57u8, 57u8, 61u8]  // "u,p99="
     + dec_digits(stats.p99 as nat) + seq![117u8, 44u8, 112u8, 57u8, 57u8, 57u8, 61u8]  // "u,p999="
     + dec_digits(stats.p999 as nat) + seq![117u8, 44u8, 112u8, 57u8, 57u8, 57u8, 57u8, 61u8]  // "u,p9999="
     + dec_digits(stats.p9999 as nat)
}

/// A complete line-protocol histogram record.
pub open spec fn histogram_line(
    name: Seq<u8>,
    tags: Seq<(Seq<u8>, Seq<u8>)>,
    stats: HistogramStats,
    timestamp: nat,
) -> Seq<u8> {
    name + encode_tag_list(tags) + histogram_fields(stats) + seq![117u8, 32u8] + dec_digits(
        timestamp,
    ) + seq![NEWLINE]
}

/// Appends the field section of a histogram record.
#[verifier::rlimit(100)]
fn push_histogram_fields(stats: &HistogramStats, dst: &mut Vec<u8>)
    ensures
        final(dst)@ == old(dst)@ + histogram_fields(*stats),
{
    let ghost s0 = dst@;
    push_bytes(dst, &[32u8, 99u8, 111u8, 117u8, 110u8, 116u8, 61u8]);
    fmt_u64(stats.count, dst);
    let ghost e1 = seq![32u8, 99u8, 111u8, 117u8, 110u8, 116u8, 61u8] + dec_digits(
        stats.count as nat,
    );
    proof {
        assert(dst@ =~= s0 + e1);
    }
    push_bytes(dst, &[117u8, 44u8, 109u8, 105u8, 110u8, 61u8]);
    fmt_u64(stats.min, dst);
    let ghost e2 = e1 + seq![117u8, 44u8, 109u8, 105u8, 110u8, 61u8] + dec_digits(
        stats.min as nat,
    );
    proof {
        assert(dst@ =~= s0 + e2);
    }
    push_bytes(dst, &[117u8, 44u8, 109u8, 97u8, 120u8, 61u8]);
    fmt_u64(stats.max, dst);
    let ghost e3 = e2 + seq![117u8, 44u8, 109u8, 97u8, 120u8, 61u8] + dec_digits(
        stats.max as nat,
    );
    proof {
        assert(dst@ =~= s0 + e3);
    }
    push_bytes(dst, &[117u8, 44u8, 109u8, 101u8, 97u8, 110u8, 61u8]);
    push_str_bytes(dst, stats.mean_text.as_str());
    let ghost e4 = e3 + seq![117u8, 44u8, 109u8, 101u8, 97u8, 110u8, 61u8] + str_bytes(
        stats.mean_text@,
    );
    proof {
        assert(dst@ =~= s0 + e4);
    }
    push_bytes(dst, &[102u8, 44u8, 112u8, 53u8, 48u8, 61u8]);
    fmt_u64(stats.p50, dst);
    let ghost e5 = e4 + seq![102u8, 44u8, 112u8, 53u8, 48u8, 61u8] + dec_digits(
        stats.p50 as nat,
    );
    proof {
        assert(dst@ =~= s0 + e5);
    }
    push_bytes(dst, &[117u8, 44u8, 112u8, 55u8, 53u8, 61u8]);
    fmt_u64(stats.p75, dst);
    let ghost e6 = e5 + seq![117u8, 44u8, 112u8, 55u8, 53u8, 61u8] + dec_digits(
        stats.p75 as nat,
    );
    proof {
        assert(dst@ =~= s0 + e6);
    }
    push_bytes(dst, &[117u8, 44u8, 112u8, 57u8, 48u8, 61u8]);
    fmt_u64(stats.p90, dst);
    let ghost e7 = e6 + seq![117u8, 44u8, 112u8, 57u8, 48u8, 61u8] + dec_digits(
        stats.p90 as nat,
    );
    proof {
        assert(dst@ =~= s0 + e7);
    }
    push_bytes(dst, &[117u8, 44u8, 112u8, 57u8, 53u8, 61u8]);
    fmt_u64(stats.p95, dst);
    let ghost e8 = e7 + seq![117u8, 44u8, 112u8, 57u8, 53u8, 61u8] + dec_digits(
        stats.p95 as nat,
    );
    proof {
        assert(dst@ =~= s0 + e8);
    }
    push_bytes(dst, &[117u8, 44u8, 112u8, 57u8, 57u8, 61u8]);
    fmt_u64(stats.p99, dst);
    let ghost e9 = e8 + seq![117u8, 44u8, 112u8, 57u8, 57u8, 61u8] + dec_digits(
        stats.p99 as nat,
    );
    proof {
        assert(dst@ =~= s0 + e9);
    }
    push_bytes(dst, &[117u8, 44u8, 112u8, 57u8, 57u8, 57u8, 61u8]);
    fmt_u64(stats.p999, dst);
    let ghost e10 = e9 + seq![117u8, 44u8, 112u8, 57u8, 57u8, 57u8, 61u8] + dec_digits(
        stats.p999 as nat,
    );
    proof {
        assert(dst@ =~= s0 + e10);
    }
    push_bytes(dst, &[117u8, 44u8, 112u8, 57u8, 57u8, 57u8, 57u8, 61u8]);
    fmt_u64(stats.p9999, dst);
    let ghost e11 = e10 + seq![117u8, 44u8, 112u8, 57u8, 57u8, 57u8, 57u8, 61u8] + dec_digits(
        stats.p9999 as nat,
    );
    proof {
        assert(dst@ =~= s0 + e11);
        assert(e11 =~= histogram_fields(*stats));
    }
}

/// Appends one line-protocol histogram record.
#[verifier::rlimit(50)]
pub fn encode_histogram_line(
    name: &str,
    tags: &Vec<(String, String)>,
    stats: &HistogramStats,
    timestamp: u64,
    dst: &mut Vec<u8>,
)
    ensures
        final(dst)@ == old(dst)@ + histogram_line(
            str_bytes(name@),
            tags_bytes(tags.deep_view()),
            *stats,
            timestamp as nat,
        ),
{
    push_str_bytes(dst, name);
    push_tag_list(dst, tags);
    push_histogram_fields(stats, dst);
    push_bytes(dst, &[117u8, 32u8]);
    fmt_u64(timestamp, dst);
    dst.push(NEWLINE);
    proof {
        assert(dst@ =~= old(dst)@ + histogram_line(
            str_bytes(name@),
            tags_bytes(tags.deep_view()),
            *stats,
            timestamp as nat,
        ));
    }
}

/// An ASCII decimal digit.
pub open spec fn is_digit(b: u8) -> bool {
    48 <= b <= 57
}

/// The value of a decimal digit run, most significant first.
pub open spec fn digits_val(s: Seq<u8>) -> nat
    decreases s.len(),
{
    if s.len() == 0 {
        0
    } else {
        (digits_val(s.drop_last()) * 10 + (s.last() - 48)) as nat
    }
}

/// A formatted number consists of digits.
pub proof fn lemma_dec_digits_are_digits(n: nat)
    ensures
        dec_digits(n).len() >= 1,
        forall|i: int| 0 <= i < dec_digits(n).len() ==> is_digit(#[trigger] dec_digits(n)[i]),
    decreases n,
{
    if n >= 10 {
        lemma_dec_digits_are_digits(n / 10);
    }
}

/// Parsing inverts formatting: the digit run of a number reads back as that
/// number.
pub proof fn lemma_digits_val_dec(n: nat)
    ensures
        digits_val(dec_digits(n)) == n,
    decreases n,
{
    if n < 10 {
        let s = dec_digits(n);
        assert(s =~= seq![(0x30 + n) as u8]);
        assert(s.drop_last() =~= Seq::<u8>::empty());
        assert(digits_val(s.drop_last()) == 0);
        assert(s.last() == (0x30 + n) as u8);
        assert((0x30 + n) as u8 == 48 + n);
        assert(digits_val(s) == n);
    } else {
        lemma_digits_val_dec(n / 10);
        assert(dec_digits(n).drop_last() =~= dec_digits(n / 10));
        assert(dec_digits(n).last() == (0x30 + n % 10) as u8);
        assert(n % 10 < 10);
        assert((0x30 + n % 10) as u8 == 48 + n % 10);
        assert(digits_val(dec_digits(n)) == (n / 10) * 10 + n % 10);
        assert((n / 10) * 10 + n % 10 == n) by (nonlinear_arith);
    }
}

/// The first position of a byte, at or after `from`; the length when the
/// byte does not occur.
pub open spec fn first_index_of(s: Seq<u8>, b: u8, from: int) -> int
    decreases s.len() - from,
{
    if from < 0 || from >= s.len() {
        s.len() as int
    } else if s[from] == b {
        from
    } else {
        first_index_of(s, b, from + 1)
    }
}

proof fn lemma_first_index_found(s: Seq<u8>, b: u8, from: int, k: int)
    requires
        0 <= from <= k < s.len(),
        forall|i: int| from <= i < k ==> s[i] != b,
        s[k] == b,
    ensures
        first_index_of(s, b, from) == k,
    decreases k - from,
{
    if from < k {
        lemma_first_index_found(s, b, from + 1, k);
    }
}

/// The end of the digit run beginning at `from`: the first position at or
/// after it holding a non-digit, or the length.
pub open spec fn digit_run_end(s: Seq<u8>, from: int) -> int
    decreases s.len() - from,
{
    if from < 0 || from >= s.len() {
        s.len() as int
    } else if is_digit(s[from]) {
        digit_run_end(s, from + 1)
    } else {
        from
    }
}

proof fn lemma_digit_run_end(s: Seq<u8>, from: int, k: int)
    requires
        0 <= from <= k < s.len(),
        forall|i: int| from <= i < k ==> is_digit(#[trigger] s[i]),
        !is_digit(s[k]),
    ensures
        digit_run_end(s, from) == k,
    decreases k - from,
{
    if from < k {
        lemma_digit_run_end(s, from + 1, k);
    }
}

/// Holds when no byte of the sequence is a space.
pub open spec fn space_free(s: Seq<u8>) -> bool {
    forall|i: int| 0 <= i < s.len() ==> s[i] != SPACE
}

/// An encoded tag list is space-free when every key and value is.
proof fn lemma_tag_list_space_free(tags: Seq<(Seq<u8>, Seq<u8>)>)
    requires
        forall|i: int|
            0 <= i < tags.len() ==> space_free((#[trigger] tags[i]).0) && space_free(tags[i].1),
    ensures
        space_free(encode_tag_list(tags)),
    decreases tags.len(),
{
    if tags.len() > 0 {
        lemma_tag_list_space_free(tags.drop_last());
        assert(forall|i: int|
            0 <= i < tags.len() - 1 ==> space_free((#[trigger] tags.drop_last()[i]).0)
                && space_free(tags.drop_last()[i].1));
        let t = tags.last();
        assert(space_free(t.0) && space_free(t.1));
        assert forall|i: int|
            0 <= i < encode_tag_list(tags).len() implies #[trigger] encode_tag_list(tags)[i]
            != SPACE by {
            let pre = encode_tag_list(tags.drop_last());
            if i >= pre.len() {
                let j = i - pre.len();
                assert(encode_tag(t)[j] != SPACE);
            }
        }
    }
}

/// What the field section of a counter record holds: the counter's value
/// and the record's timestamp, or nothing when the line is not a counter
/// record.  The field section runs from the first space: ` value=<n>u <t>\n`.
pub open spec fn parse_counter_fields_spec(line: Seq<u8>) -> Option<(u64, u64)> {
    let sp = first_index_of(line, SPACE, 0);
    let vstart = sp + 7;
    let vend = digit_run_end(line, vstart);
    let tstart = vend + 2;
    let tend = digit_run_end(line, tstart);
    if sp + 7 > line.len() || line.subrange(sp, sp + 7) != field_value_prefix() {
        None
    } else if vend == vstart || vend >= line.len() || line[vend] != 117 {
        None
    } else if vend + 1 >= line.len() || line[vend + 1] != SPACE {
        None
    } else if tend == tstart || tend != line.len() - 1 || line[tend] != NEWLINE {
        None
    } else {
        let v = digits_val(line.subrange(vstart, vend));
        let t = digits_val(line.subrange(tstart, tend));
        if v > u64::MAX || t > u64::MAX {
            None
        } else {
            Some((v as u64, t as u64))
        }
    }
}

/// Encoding a counter as line protocol and parsing the field section back
/// recovers the exact value and timestamp written, for any measurement name
/// and tags free of spaces.
pub proof fn lemma_counter_line_roundtrip(
    name: Seq<u8>,
    tags: Seq<(Seq<u8>, Seq<u8>)>,
    value: u64,
    timestamp: u64,
)
    requires
        space_free(name),
        forall|i: int|
            0 <= i < tags.len() ==> space_free((#[trigger] tags[i]).0) && space_free(tags[i].1),
    ensures
        parse_counter_fields_spec(counter_line(name, tags, value as nat, timestamp as nat))
            == Some((value, timestamp)),
{
    let line = counter_line(name, tags, value as nat, timestamp as nat);
    let head = name + encode_tag_list(tags);
    let p = head.len() as int;
    let vd = dec_digits(value as nat);
    let td = dec_digits(timestamp as nat);
    lemma_tag_list_space_free(tags);
    lemma_dec_digits_are_digits(value as nat);
    lemma_dec_digits_are_digits(timestamp as nat);
    lemma_digits_val_dec(value as nat);
    lemma_digits_val_dec(timestamp as nat);
    assert(line.len() == p + 7 + vd.len() + 2 + td.len() + 1);
    // The head holds no space, and the field prefix opens with one.
    assert(forall|i: int| 0 <= i < p ==> line[i] != SPACE);
    assert(line[p] == SPACE);
    lemma_first_index_found(line, SPACE, 0, p);
    assert(line.subrange(p, p + 7) =~= field_value_prefix());
    // The value's digit run ends exactly at its `u` suffix.
    let vstart = p + 7;
    let vend = vstart + vd.len() as int;
    assert(forall|i: int| vstart <= i < vend ==> is_digit(#[trigger] line[i])) by {
        assert(forall|j: int| 0 <= j < vd.len() ==> line[vstart + j] == #[trigger] vd[j]);
    }
    assert(line[vend] == 117);
    assert(!is_digit(117));
    lemma_digit_run_end(line, vstart, vend);
    assert(line[vend + 1] == SPACE);
    // The timestamp's digit run ends exactly at the final newline.
    let tstart = vend + 2;
    let tend = tstart + td.len() as int;
    assert(forall|i: int| tstart <= i < tend ==> is_digit(#[trigger] line[i])) by {
        assert(forall|j: int| 0 <= j < td.len() ==> line[tstart + j] == #[trigger] td[j]);
    }
    assert(tend == line.len() - 1);
    assert(line[tend] == NEWLINE);
    assert(!is_digit(NEWLINE));
    lemma_digit_run_end(line, tstart, tend);
    assert(line.subrange(vstart, vend) =~= vd);
    assert(line.subrange(tstart, tend) =~= td);
}

proof fn lemma_first_index_absent(s: Seq<u8>, b: u8, from: int)
    requires
        0 <= from <= s.len(),
        forall|i: int| from <= i < s.len() ==> s[i] != b,
    ensures
        first_index_of(s, b, from) == s.len(),
    decreases s.len() - from,
{
    if from < s.len() {
        lemma_first_index_absent(s, b, from + 1);
    }
}

proof fn lemma_digit_run_all(s: Seq<u8>, from: int)
    requires
        0 <= from <= s.len(),
        forall|i: int| from <= i < s.len() ==> is_digit(#[trigger] s[i]),
    ensures
        digit_run_end(s, from) == s.len(),
    decreases s.len() - from,
{
    if from < s.len() {
        lemma_digit_run_all(s, from + 1);
    }
}

/// Scans the digit run beginning at `start` and reads its value: the run's
/// end, and the value unless it exceeds the type.
#[verifier::loop_isolation(false)]
fn scan_digits(line: &Vec<u8>, start: usize) -> (r: (usize, Option<u64>))
    requires
        start <= line@.len(),
    ensures
        r.0 == digit_run_end(line@, start as int),
        start <= r.0 <= line@.len(),
        match r.1 {
            Some(v) => digits_val(line@.subrange(start as int, r.0 as int)) == v,
            None => digits_val(line@.subrange(start as int, r.0 as int)) > u64::MAX,
        },
{
    let len = line.len();
    let mut i: usize = start;
    let mut val: u64 = 0;
    let mut overflow = false;
    while i < len && 48 <= line[i] && line[i] <= 57
        invariant
            start <= i <= len,
            forall|k: int| start <= k < i ==> is_digit(#[trigger] line@[k]),
            !overflow ==> digits_val(line@.subrange(start as int, i as int)) == val,
            overflow ==> digits_val(line@.subrange(start as int, i as int)) > u64::MAX,
        decreases len - i,
    {
        let d: u64 = (line[i] - 48) as u64;
        let ghost prefix = line@.subrange(start as int, i as int);
        let ghost next_prefix = line@.subrange(start as int, i + 1);
        proof {
            assert(next_prefix.drop_last() =~= prefix);
            assert(next_prefix.last() == line@[i as int]);
            assert(digits_val(next_prefix) == digits_val(prefix) * 10 + d);
        }
        if overflow {
            proof {
                assert(digits_val(prefix) * 10 >= digits_val(prefix)) by (nonlinear_arith);
            }
        } else if val > 1844674407370955161 || (val == 1844674407370955161 && d > 5) {
            overflow = true;
            proof {
                assert(digits_val(next_prefix) > u64::MAX);
            }
        } else {
            val = val * 10 + d;
        }
        i = i + 1;
    }
    proof {
        if i == len {
            lemma_digit_run_all(line@, start as int);
        } else {
            lemma_digit_run_end(line@, start as int, i as int);
        }
    }
    if overflow {
        (i, None)
    } else {
        (i, Some(val))
    }
}

/// Parses the field section of a line-protocol counter record, recovering
/// the value and timestamp it was written with.
#[verifier::loop_isolation(false)]
pub fn parse_counter_fields(line: &Vec<u8>) -> (r: Option<(u64, u64)>)
    ensures
        r == parse_counter_fields_spec(line@),
{
    let len = line.len();
    // The field section starts at the first space.
    let mut sp: usize = 0;
    while sp < len && line[sp] != 32
        invariant
            sp <= len,
            forall|k: int| 0 <= k < sp ==> line@[k] != SPACE,
        decreases len - sp,
    {
        sp = sp + 1;
    }
    proof {
        if sp == len {
            lemma_first_index_absent(line@, SPACE, 0);
        } else {
            lemma_first_index_found(line@, SPACE, 0, sp as int);
        }
    }
    if len < 7 || sp > len - 7 {
        return None;
    }
    // The seven bytes " value=".
    if !(line[sp] == 32 && line[sp + 1] == 118 && line[sp + 2] == 97 && line[sp + 3] == 108
        && line[sp + 4] == 117 && line[sp + 5] == 101 && line[sp + 6] == 61) {
        proof {
            assert(line@.subrange(sp as int, sp + 7) != field_value_prefix()) by {
                if line@.subrange(sp as int, sp + 7) == field_value_prefix() {
                    assert(line@[sp as int] == field_value_prefix()[0]);
                    assert(line@[sp + 1] == field_value_prefix()[1]);
                    assert(line@[sp + 2] == field_value_prefix()[2]);
                    assert(line@[sp + 3] == field_value_prefix()[3]);
                    assert(line@[sp + 4] == field_value_prefix()[4]);
                    assert(line@[sp + 5] == field_value_prefix()[5]);
                    assert(line@[sp + 6] == field_value_prefix()[6]);
                }
            }
        }
        return None;
    }
    proof {
        assert(line@.subrange(sp as int, sp + 7) =~= field_value_prefix());
    }
    let vstart = sp + 7;
    let (vend, value_opt) = scan_digits(line, vstart);
    if vend == vstart {
        return None;
    }
    if vend >= len || line[vend] != 117 {
        return None;
    }
    if vend + 1 >= len || line[vend + 1] != 32 {
        return None;
    }
    let tstart = vend + 2;
    let (tend, ts_opt) = scan_digits(line, tstart);
    if tend == tstart {
        return None;
    }
    if tend != len - 1 || line[tend] != 10 {
        return None;
    }
    match (value_opt, ts_opt) {
        (Some(v), Some(t)) => Some((v, t)),
        _ => None,
    }
}

/// A lowercase hexadecimal digit.
pub open spec fn hex_digit(n: u8) -> u8 {
    if n < 10 {
        (48 + n) as u8
    } else {
        (87 + n) as u8
    }
}

/// JSON string escaping of one byte: quote and backslash get a backslash,
/// the named control characters their short escapes, every other control
/// byte a `\u00..` escape, and everything else passes through.
pub open spec fn json_escape_byte(b: u8) -> Seq<u8> {
    if b == 34 {
        seq![92u8, 34u8]
    } else if b == 92 {
        seq![92u8, 92u8]
    } else if b == 8 {
        seq![92u8, 98u8]
    } else if b == 9 {
        seq![92u8, 116u8]
    } else if b == 10 {
        seq![92u8, 110u8]
    } else if b == 12 {
        seq![92u8, 102u8]
    } else if b == 13 {
        seq![92u8, 114u8]
    } else if b < 32 {
        seq![92u8, 117u8, 48u8, 48u8, hex_digit(b / 16), hex_digit(b % 16)]
    } else {
        seq![b]
    }
}

/// JSON string escaping of a byte sequence.
pub open spec fn json_escape(s: Seq<u8>) -> Seq<u8>
    decreases s.len(),
{
    if s.len() == 0 {
        Seq::empty()
    } else {
        json_escape(s.drop_last()) + json_escape_byte(s.last())
    }
}

/// A JSON string literal: quoted, escaped bytes.
pub open spec fn json_string(s: Seq<u8>) -> Seq<u8> {
    seq![34u8] + json_escape(s) + seq![34u8]
}

/// Appends a JSON string literal.
pub fn push_json_string(dst: &mut Vec<u8>, s: &str)
    ensures
        final(dst)@ == old(dst)@ + json_string(str_bytes(s@)),
{
    dst.push(34);
    let bytes = s.as_bytes();
    let len = bytes.len();
    let mut i: usize = 0;
    while i < len
        invariant
            i <= len,
            len == bytes@.len(),
            bytes@ == str_bytes(s@),
            dst@ == old(dst)@ + seq![34u8] + json_escape(bytes@.take(i as int)),
        decreases len - i,
    {
        let b = *slice_index_get(bytes, i);
        proof {
            assert(bytes@.take(i + 1).drop_last() =~= bytes@.take(i as int));
            assert(bytes@.take(i + 1).last() == b);
        }
        if b == 34 {
            push_bytes(dst, &[92u8, 34u8]);
        } else if b == 92 {
            push_bytes(dst, &[92u8, 92u8]);
        } else if b == 8 {
            push_bytes(dst, &[92u8, 98u8]);
        } else if b == 9 {
            push_bytes(dst, &[92u8, 116u8]);
        } else if b == 10 {
            push_bytes(dst, &[92u8, 110u8]);
        } else if b == 12 {
            push_bytes(dst, &[92u8, 102u8]);
        } else if b == 13 {
            push_bytes(dst, &[92u8, 114u8]);
        } else if b < 32 {
            let hi: u8 = b / 16;
            let lo: u8 = b % 16;
            let hi_d: u8 = if hi < 10 {
                48 + hi
            } else {
                87 + hi
            };
            let lo_d: u8 = if lo < 10 {
                48 + lo
            } else {
                87 + lo
            };
            dst.push(92);
            dst.push(117);
            dst.push(48);
            dst.push(48);
            dst.push(hi_d);
            dst.push(lo_d);
        } else {
            dst.push(b);
        }
        proof {
            assert(dst@ =~= old(dst)@ + seq![34u8] + json_escape(bytes@.take(i + 1)));
        }
        i = i + 1;
    }
    dst.push(34);
    proof {
        assert(bytes@.take(len as int) =~= bytes@);
        assert(dst@ =~= old(dst)@ + json_string(str_bytes(s@)));
    }
}

/// One tag as a JSON object member: `"key":"value"`.
pub open spec fn json_tag(t: (Seq<u8>, Seq<u8>)) -> Seq<u8> {
    json_string(t.0) + seq![58u8] + json_string(t.1)
}

/// All tags as the comma-separated members of a JSON object.
pub open spec fn json_tag_list(tags: Seq<(Seq<u8>, Seq<u8>)>) -> Seq<u8>
    decreases tags.len(),
{
    if tags.len() == 0 {
        Seq::empty()
    } else if tags.len() == 1 {
        json_tag(tags[0])
    } else {
        json_tag_list(tags.drop_last()) + seq![44u8] + json_tag(tags.last())
    }
}

/// A complete JSON counter record:
/// `{"timestamp":..,"value":..,"name":..,"tags":{..}}\n`.
pub open spec fn json_counter_line(
    name: Seq<u8>,
    tags: Seq<(Seq<u8>, Seq<u8>)>,
    value: nat,
    timestamp: nat,
) -> Seq<u8> {
    seq![123u8, 34u8, 116u8, 105u8, 109u8, 101u8, 115u8, 116u8, 97u8, 109u8, 112u8, 34u8, 58u8]  // {"timestamp":
     + dec_digits(timestamp) + seq![44u8, 34u8, 118u8, 97u8, 108u8, 117u8, 101u8, 34u8, 58u8]  // ,"value":
     + dec_digits(value) + seq![44u8, 34u8, 110u8, 97u8, 109u8, 101u8, 34u8, 58u8]  // ,"name":
     + json_string(name) + seq![44u8, 34u8, 116u8, 97u8, 103u8, 115u8, 34u8, 58u8, 123u8]  // ,"tags":{
     + json_tag_list(tags) + seq![125u8, 125u8, NEWLINE]  // }}\n
}

/// Appends one JSON counter record.
#[verifier::rlimit(50)]
pub fn encode_json_counter_line(
    name: &str,
    tags: &Vec<(String, String)>,
    value: u64,
    timestamp: u64,
    dst: &mut Vec<u8>,
)
    ensures
        final(dst)@ == old(dst)@ + json_counter_line(
            str_bytes(name@),
            tags_bytes(tags.deep_view()),
            value as nat,
            timestamp as nat,
        ),
{
    let ghost s0 = dst@;
    push_bytes(
        dst,
        &[123u8, 34u8, 116u8, 105u8, 109u8, 101u8, 115u8, 116u8, 97u8, 109u8, 112u8, 34u8, 58u8],
    );
    fmt_u64(timestamp, dst);
    let ghost e1 = seq![
        123u8, 34u8, 116u8, 105u8, 109u8, 101u8, 115u8, 116u8, 97u8, 109u8, 112u8, 34u8, 58u8,
    ] + dec_digits(timestamp as nat);
    proof {
        assert(dst@ =~= s0 + e1);
    }
    push_bytes(dst, &[44u8, 34u8, 118u8, 97u8, 108u8, 117u8, 101u8, 34u8, 58u8]);
    fmt_u64(value, dst);
    let ghost e2 = e1 + seq![44u8, 34u8, 118u8, 97u8, 108u8, 117u8, 101u8, 34u8, 58u8]
        + dec_digits(value as nat);
    proof {
        assert(dst@ =~= s0 + e2);
    }
    push_bytes(dst, &[44u8, 34u8, 110u8, 97u8, 109u8, 101u8, 34u8, 58u8]);
    push_json_string(dst, name);
    let ghost e3 = e2 + seq![44u8, 34u8, 110u8, 97u8, 109u8, 101u8, 34u8, 58u8] + json_string(
        str_bytes(name@),
    );
    proof {
        assert(dst@ =~= s0 + e3);
    }
    push_bytes(dst, &[44u8, 34u8, 116u8, 97u8, 103u8, 115u8, 34u8, 58u8, 123u8]);
    let ghost tv = tags_bytes(tags.deep_view());
    let mut j: usize = 0;
    let ghost e4 = e3 + seq![44u8, 34u8, 116u8, 97u8, 103u8, 115u8, 34u8, 58u8, 123u8];
    proof {
        assert(dst@ =~= s0 + e4);
        assert(json_tag_list(tv.take(0)) =~= Seq::<u8>::empty());
        assert(dst@ =~= s0 + e4 + json_tag_list(tv.take(0)));
    }
    while j < tags.len()
        invariant
            j <= tags@.len(),
            tv == tags_bytes(tags.deep_view()),
            tv.len() == tags@.len(),
            dst@ == s0 + e4 + json_tag_list(tv.take(j as int)),
        decreases tags@.len() - j,
    {
        if j > 0 {
            dst.push(44);
        }
        push_json_string(dst, tags[j].0.as_str());
        dst.push(58);
        push_json_string(dst, tags[j].1.as_str());
        proof {
            assert(tags.deep_view()[j as int] == (tags@[j as int].0@, tags@[j as int].1@));
            assert(tv[j as int] == (str_bytes(tags@[j as int].0@), str_bytes(tags@[j
                as int].1@)));
            assert(tv.take(j + 1).drop_last() =~= tv.take(j as int));
            assert(tv.take(j + 1).last() == tv[j as int]);
            if j == 0 {
                assert(tv.take(1).len() == 1);
                assert(tv.take(1)[0] == tv[0]);
            }
            assert(dst@ =~= s0 + e4 + json_tag_list(tv.take(j + 1)));
        }
        j = j + 1;
    }
    proof {
        assert(tv.take(tv.len() as int) =~= tv);
    }
    push_bytes(dst, &[125u8, 125u8, NEWLINE]);
    proof {
        assert(dst@ =~= s0 + json_counter_line(
            str_bytes(name@),
            tags_bytes(tags.deep_view()),
            value as nat,
            timestamp as nat,
        ));
    }
}

} // verus!
