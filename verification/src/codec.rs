//! The persisted record codec: sequence keys are fixed-width 8-byte
//! big-endian integers, so that byte-lexicographic order over keys equals
//! numeric order over sequence ids.  Also renders and parses the
//! line-oriented export format `<id>:<payload>\n`.

use vstd::prelude::*;

verus! {

/// The 8-byte big-endian encoding of a sequence id.
pub open spec fn u64_be_bytes(x: u64) -> Seq<u8> {
    seq![
        ((x >> 56) & 0xff) as u8,
        ((x >> 48) & 0xff) as u8,
        ((x >> 40) & 0xff) as u8,
        ((x >> 32) & 0xff) as u8,
        ((x >> 24) & 0xff) as u8,
        ((x >> 16) & 0xff) as u8,
        ((x >> 8) & 0xff) as u8,
        (x & 0xff) as u8,
    ]
}

/// The numeric value of an 8-byte big-endian key.
pub open spec fn be_val(s: Seq<u8>) -> u64
    recommends
        s.len() == 8,
{
    ((s[0] as u64) << 56) | ((s[1] as u64) << 48) | ((s[2] as u64) << 40) | ((s[3] as u64) << 32)
        | ((s[4] as u64) << 24) | ((s[5] as u64) << 16) | ((s[6] as u64) << 8) | (s[7] as u64)
}

/// Byte-lexicographic order, the order in which the durability layer
/// iterates its keys.
pub open spec fn lex_lt(a: Seq<u8>, b: Seq<u8>) -> bool
    decreases a.len(),
{
    if b.len() == 0 {
        false
    } else if a.len() == 0 {
        true
    } else {
        a[0] < b[0] || (a[0] == b[0] && lex_lt(a.drop_first(), b.drop_first()))
    }
}

/// Decoding inverts encoding: the key written for an id reads back as
/// that id.
pub proof fn lemma_be_roundtrip(x: u64)
    ensures
        be_val(u64_be_bytes(x)) == x,
{
    let s = u64_be_bytes(x);
    assert((((((x >> 56) & 0xff) as u8) as u64) << 56) | (((((x >> 48) & 0xff) as u8) as u64)
        << 48) | (((((x >> 40) & 0xff) as u8) as u64) << 40) | (((((x >> 32) & 0xff) as u8) as u64)
        << 32) | (((((x >> 24) & 0xff) as u8) as u64) << 24) | (((((x >> 16) & 0xff) as u8) as u64)
        << 16) | (((((x >> 8) & 0xff) as u8) as u64) << 8) | (((x & 0xff) as u8) as u64) == x)
        by (bit_vector);
}

/// Encoding inverts decoding: an 8-byte key re-encodes to itself.
pub proof fn lemma_bytes_roundtrip(s: Seq<u8>)
    requires
        s.len() == 8,
    ensures
        u64_be_bytes(be_val(s)) == s,
{
    let (a0, a1, a2, a3) = (s[0], s[1], s[2], s[3]);
    let (a4, a5, a6, a7) = (s[4], s[5], s[6], s[7]);
    let v = be_val(s);
    assert(v == ((a0 as u64) << 56) | ((a1 as u64) << 48) | ((a2 as u64) << 40) | ((a3 as u64)
        << 32) | ((a4 as u64) << 24) | ((a5 as u64) << 16) | ((a6 as u64) << 8) | (a7 as u64));
    assert({
        let v = ((a0 as u64) << 56) | ((a1 as u64) << 48) | ((a2 as u64) << 40) | ((a3 as u64)
            << 32) | ((a4 as u64) << 24) | ((a5 as u64) << 16) | ((a6 as u64) << 8) | (a7 as u64);
        ((v >> 56) & 0xff) as u8 == a0 && ((v >> 48) & 0xff) as u8 == a1 && ((v >> 40) & 0xff) as u8
            == a2 && ((v >> 32) & 0xff) as u8 == a3 && ((v >> 24) & 0xff) as u8 == a4 && ((v >> 16)
            & 0xff) as u8 == a5 && ((v >> 8) & 0xff) as u8 == a6 && (v & 0xff) as u8 == a7
    }) by (bit_vector);
    assert(u64_be_bytes(v) =~= s);
}

proof fn lemma_lex_lt_first_diff(a: Seq<u8>, b: Seq<u8>)
    requires
        a.len() == b.len(),
        lex_lt(a, b),
    ensures
        exists|i: int|
            0 <= i < a.len() && a[i] < b[i] && (forall|j: int| 0 <= j < i ==> a[j] == b[j]),
    decreases a.len(),
{
    if a[0] < b[0] {
        assert(0 <= 0 < a.len() && a[0] < b[0] && (forall|j: int| 0 <= j < 0 ==> a[j] == b[j]));
    } else {
        lemma_lex_lt_first_diff(a.drop_first(), b.drop_first());
        let i0 = choose|i: int|
            0 <= i < a.drop_first().len() && a.drop_first()[i] < b.drop_first()[i] && (forall|
                j: int,
            |
                0 <= j < i ==> a.drop_first()[j] == b.drop_first()[j]);
        assert(a[i0 + 1] < b[i0 + 1]);
        assert(forall|j: int| 0 <= j < i0 + 1 ==> a[j] == b[j]) by {
            assert(forall|j: int|
                1 <= j < i0 + 1 ==> a[j] == a.drop_first()[j - 1] && b[j] == b.drop_first()[j - 1]);
        }
        assert(0 <= i0 + 1 < a.len() && a[i0 + 1] < b[i0 + 1] && (forall|j: int|
            0 <= j < i0 + 1 ==> a[j] == b[j]));
    }
}

proof fn lemma_first_diff_val(a: Seq<u8>, b: Seq<u8>, i: int)
    requires
        a.len() == 8,
        b.len() == 8,
        0 <= i < 8,
        a[i] < b[i],
        forall|j: int| 0 <= j < i ==> a[j] == b[j],
    ensures
        be_val(a) < be_val(b),
{
    let (a0, a1, a2, a3) = (a[0], a[1], a[2], a[3]);
    let (a4, a5, a6, a7) = (a[4], a[5], a[6], a[7]);
    let (b0, b1, b2, b3) = (b[0], b[1], b[2], b[3]);
    let (b4, b5, b6, b7) = (b[4], b[5], b[6], b[7]);
    assert(((a0 < b0) || (a0 == b0 && a1 < b1) || (a0 == b0 && a1 == b1 && a2 < b2) || (a0 == b0
        && a1 == b1 && a2 == b2 && a3 < b3) || (a0 == b0 && a1 == b1 && a2 == b2 && a3 == b3 && a4
        < b4) || (a0 == b0 && a1 == b1 && a2 == b2 && a3 == b3 && a4 == b4 && a5 < b5) || (a0 == b0
        && a1 == b1 && a2 == b2 && a3 == b3 && a4 == b4 && a5 == b5 && a6 < b6) || (a0 == b0 && a1
        == b1 && a2 == b2 && a3 == b3 && a4 == b4 && a5 == b5 && a6 == b6 && a7 < b7)) ==> (((a0
        as u64) << 56) | ((a1 as u64) << 48) | ((a2 as u64) << 40) | ((a3 as u64) << 32) | ((a4
        as u64) << 24) | ((a5 as u64) << 16) | ((a6 as u64) << 8) | (a7 as u64)) < (((b0 as u64)
        << 56) | ((b1 as u64) << 48) | ((b2 as u64) << 40) | ((b3 as u64) << 32) | ((b4 as u64)
        << 24) | ((b5 as u64) << 16) | ((b6 as u64) << 8) | (b7 as u64))) by (bit_vector);
}

/// Lexicographic order on 8-byte keys implies numeric order on the
/// values they decode to.
pub proof fn lemma_lex_lt_be_val(a: Seq<u8>, b: Seq<u8>)
    requires
        a.len() == 8,
        b.len() == 8,
        lex_lt(a, b),
    ensures
        be_val(a) < be_val(b),
{
    lemma_lex_lt_first_diff(a, b);
    let i = choose|i: int|
        0 <= i < a.len() && a[i] < b[i] && (forall|j: int| 0 <= j < i ==> a[j] == b[j]);
    lemma_first_diff_val(a, b, i);
}

proof fn lemma_lex_trichotomy(a: Seq<u8>, b: Seq<u8>)
    requires
        a.len() == b.len(),
    ensures
        a =~= b || lex_lt(a, b) || lex_lt(b, a),
    decreases a.len(),
{
    if a.len() != 0 {
        if a[0] == b[0] {
            lemma_lex_trichotomy(a.drop_first(), b.drop_first());
            if a.drop_first() =~= b.drop_first() {
                assert(forall|i: int| 0 <= i < a.len() ==> a[i] == b[i]) by {
                    assert(forall|i: int|
                        1 <= i < a.len() ==> a[i] == a.drop_first()[i - 1] && b[i]
                            == b.drop_first()[i - 1]);
                }
                assert(a =~= b);
            }
        }
    }
}

/// Byte-lexicographic order over encoded keys coincides with numeric
/// order over sequence ids: the store's durability layer, which orders
/// records by key bytes, therefore iterates them in id order.
pub proof fn lemma_key_order(x: u64, y: u64)
    ensures
        lex_lt(u64_be_bytes(x), u64_be_bytes(y)) <==> x < y,
{
    if lex_lt(u64_be_bytes(x), u64_be_bytes(y)) {
        lemma_lex_lt_be_val(u64_be_bytes(x), u64_be_bytes(y));
        lemma_be_roundtrip(x);
        lemma_be_roundtrip(y);
    }
    if x < y {
        lemma_lex_trichotomy(u64_be_bytes(x), u64_be_bytes(y));
        if u64_be_bytes(x) =~= u64_be_bytes(y) {
            lemma_be_roundtrip(x);
            lemma_be_roundtrip(y);
            assert(false);
        } else if lex_lt(u64_be_bytes(y), u64_be_bytes(x)) {
            lemma_lex_lt_be_val(u64_be_bytes(y), u64_be_bytes(x));
            lemma_be_roundtrip(x);
            lemma_be_roundtrip(y);
            assert(false);
        }
    }
}

/// Encode a sequence id as its fixed-width 8-byte big-endian key.
pub fn u64_to_be_bytes(x: u64) -> (r: Vec<u8>)
    ensures
        r@ == u64_be_bytes(x),
{
    let mut r: Vec<u8> = Vec::new();
    r.push(((x >> 56) & 0xff) as u8);
    r.push(((x >> 48) & 0xff) as u8);
    r.push(((x >> 40) & 0xff) as u8);
    r.push(((x >> 32) & 0xff) as u8);
    r.push(((x >> 24) & 0xff) as u8);
    r.push(((x >> 16) & 0xff) as u8);
    r.push(((x >> 8) & 0xff) as u8);
    r.push((x & 0xff) as u8);
    proof {
        assert(r@ =~= u64_be_bytes(x));
    }
    r
}

/// Read a sequence id back from the first 8 bytes of a key.
pub fn read_be_u64(input: &[u8]) -> (r: u64)
    requires
        input@.len() >= 8,
    ensures
        r == be_val(input@.subrange(0, 8)),
{
    let r = ((input[0] as u64) << 56) | ((input[1] as u64) << 48) | ((input[2] as u64) << 40) | ((
    input[3] as u64) << 32) | ((input[4] as u64) << 24) | ((input[5] as u64) << 16) | ((input[6]
        as u64) << 8) | (input[7] as u64);
    proof {
        let s = input@.subrange(0, 8);
        assert(s[0] == input@[0] && s[1] == input@[1] && s[2] == input@[2] && s[3] == input@[3]
            && s[4] == input@[4] && s[5] == input@[5] && s[6] == input@[6] && s[7] == input@[7]);
    }
    r
}

/// The decimal digits of an id, most significant first.
pub open spec fn dec_digits(x: u64) -> Seq<u8>
    decreases x,
{
    if x < 10 {
        seq![(48 + x) as u8]
    } else {
        dec_digits(x / 10).push((48 + x % 10) as u8)
    }
}

/// Render an id as decimal text.
pub fn render_u64(x: u64) -> (r: Vec<u8>)
    ensures
        r@ == dec_digits(x),
    decreases x,
{
    if x < 10 {
        let mut r: Vec<u8> = Vec::new();
        r.push((48 + x) as u8);
        proof {
            assert(r@ =~= dec_digits(x));
        }
        r
    } else {
        let mut r = render_u64(x / 10);
        r.push((48 + x % 10) as u8);
        r
    }
}

/// One export line: the id in decimal, a colon, the payload verbatim,
/// and a line feed.
pub open spec fn line_bytes(id: u64, payload: Seq<u8>) -> Seq<u8> {
    dec_digits(id) + seq![58u8] + payload + seq![10u8]
}

/// The whole export text for a sequence of records.
pub open spec fn export_text(recs: Seq<(u64, Seq<u8>)>) -> Seq<u8>
    decreases recs.len(),
{
    if recs.len() == 0 {
        Seq::empty()
    } else {
        line_bytes(recs[0].0, recs[0].1) + export_text(recs.drop_first())
    }
}

pub proof fn lemma_export_text_push(recs: Seq<(u64, Seq<u8>)>, rec: (u64, Seq<u8>))
    ensures
        export_text(recs.push(rec)) == export_text(recs) + line_bytes(rec.0, rec.1),
    decreases recs.len(),
{
    if recs.len() == 0 {
        assert(recs.push(rec).drop_first() =~= recs);
        assert(export_text(recs) + line_bytes(rec.0, rec.1) =~= line_bytes(rec.0, rec.1));
        assert(export_text(recs.push(rec)) =~= line_bytes(rec.0, rec.1) + Seq::empty());
        assert(line_bytes(rec.0, rec.1) + Seq::empty() =~= line_bytes(rec.0, rec.1));
    } else {
        assert(recs.push(rec).drop_first() =~= recs.drop_first().push(rec));
        lemma_export_text_push(recs.drop_first(), rec);
        assert(export_text(recs.push(rec)) == line_bytes(recs[0].0, recs[0].1) + (export_text(
            recs.drop_first(),
        ) + line_bytes(rec.0, rec.1)));
        assert(line_bytes(recs[0].0, recs[0].1) + (export_text(recs.drop_first()) + line_bytes(
            rec.0,
            rec.1,
        )) =~= export_text(recs) + line_bytes(rec.0, rec.1));
    }
}

/// Render records as export text, one line per record, in the order
/// given.
pub fn render_export(recs: &Vec<(u64, Vec<u8>)>) -> (r: Vec<u8>)
    ensures
        r@ == export_text(recs@.map_values(|p: (u64, Vec<u8>)| (p.0, p.1@))),
{
    let ghost model = recs@.map_values(|p: (u64, Vec<u8>)| (p.0, p.1@));
    let mut r: Vec<u8> = Vec::new();
    let mut i: usize = 0;
    proof {
        assert(model.take(0) =~= Seq::empty());
    }
    while i < recs.len()
        invariant
            0 <= i <= recs.len(),
            model == recs@.map_values(|p: (u64, Vec<u8>)| (p.0, p.1@)),
            r@ == export_text(model.take(i as int)),
        decreases recs.len() - i,
    {
        let mut line = render_u64(recs[i].0);
        line.push(58);
        let mut k: usize = 0;
        let ghost line_start = line@;
        while k < recs[i].1.len()
            invariant
                0 <= k <= recs[i as int].1.len(),
                i < recs.len(),
                line@ == line_start + recs[i as int].1@.take(k as int),
            decreases recs[i as int].1.len() - k,
        {
            line.push(recs[i].1[k]);
            k += 1;
            proof {
                assert(line_start + recs[i as int].1@.take(k as int) =~= (line_start
                    + recs[i as int].1@.take(k as int - 1)).push(recs[i as int].1@[k - 1]));
            }
        }
        line.push(10);
        proof {
            assert(recs[i as int].1@.take(recs[i as int].1@.len() as int) =~= recs[i as int].1@);
            assert(line@ =~= line_bytes(model[i as int].0, model[i as int].1));
        }
        let mut j: usize = 0;
        let ghost r_start = r@;
        while j < line.len()
            invariant
                0 <= j <= line.len(),
                r@ == r_start + line@.take(j as int),
            decreases line.len() - j,
        {
            r.push(line[j]);
            j += 1;
            proof {
                assert(r_start + line@.take(j as int) =~= (r_start + line@.take(j as int - 1)).push(
                    line@[j - 1],
                ));
            }
        }
        proof {
            assert(line@.take(line@.len() as int) =~= line@);
            lemma_export_text_push(model.take(i as int), model[i as int]);
            assert(model.take(i as int).push(model[i as int]) =~= model.take(i as int + 1));
        }
        i += 1;
    }
    proof {
        assert(model.take(recs@.len() as int) =~= model);
    }
    r
}

/// The index of the first occurrence of `c` in `d`, or `d.len()` if
/// there is none.
pub open spec fn first_idx(d: Seq<u8>, c: u8) -> int
    decreases d.len(),
{
    if d.len() == 0 {
        0
    } else if d[0] == c {
        0
    } else {
        1 + first_idx(d.drop_first(), c)
    }
}

pub proof fn lemma_first_idx_of(d: Seq<u8>, c: u8, i: int)
    requires
        0 <= i <= d.len(),
        forall|j: int| 0 <= j < i ==> d[j] != c,
        i < d.len() ==> d[i] == c,
    ensures
        first_idx(d, c) == i,
    decreases d.len(),
{
    if d.len() != 0 && d[0] != c {
        assert(forall|j: int| 0 <= j < i - 1 ==> d.drop_first()[j] == d[j + 1] && d[j + 1] != c);
        lemma_first_idx_of(d.drop_first(), c, i - 1);
    }
}

/// The payload carried by one export line: everything after the first
/// colon, or nothing when the line has no colon.
pub open spec fn line_payload(line: Seq<u8>) -> Option<Seq<u8>> {
    if first_idx(line, 58) < line.len() {
        Some(line.skip(first_idx(line, 58) + 1))
    } else {
        None
    }
}

/// The payloads recovered from import text: the text is split at line
/// feeds, and each line with a colon contributes the bytes after its
/// first colon.
pub open spec fn import_payloads(d: Seq<u8>) -> Seq<Seq<u8>>
    decreases d.len(),
{
    if d.len() == 0 {
        Seq::empty()
    } else {
        let j = first_idx(d, 10);
        let rest = if 0 <= j && j < d.len() {
            import_payloads(d.skip(j + 1))
        } else {
            Seq::<Seq<u8>>::empty()
        };
        match line_payload(d.take(j)) {
            Some(p) => seq![p] + rest,
            None => rest,
        }
    }
}

pub proof fn lemma_dec_digits_range(x: u64)
    ensures
        forall|i: int| 0 <= i < dec_digits(x).len() ==> 48 <= #[trigger] dec_digits(x)[i] <= 57,
    decreases x,
{
    if x >= 10 {
        lemma_dec_digits_range(x / 10);
        assert(forall|i: int|
            0 <= i < dec_digits(x / 10).len() ==> dec_digits(x)[i] == dec_digits(x / 10)[i]);
    }
}

/// Export-then-import round trip: importing the text exported for a
/// record sequence recovers exactly the payloads, in order.  Holds of
/// payloads free of the line terminator, which the line format
/// reserves.
pub proof fn lemma_export_import_round_trip(recs: Seq<(u64, Seq<u8>)>)
    requires
        forall|i: int, j: int|
            0 <= i < recs.len() && 0 <= j < recs[i].1.len() ==> #[trigger] recs[i].1[j] != 10,
    ensures
        import_payloads(export_text(recs)).len() == recs.len(),
        forall|i: int|
            0 <= i < recs.len() ==> #[trigger] import_payloads(export_text(recs))[i] == recs[i].1,
    decreases recs.len(),
{
    if recs.len() > 0 {
        let id = recs[0].0;
        let payload = recs[0].1;
        let rest = recs.drop_first();
        let line = line_bytes(id, payload);
        let d = export_text(recs);
        assert(d == line + export_text(rest));
        lemma_dec_digits_range(id);
        let dlen = dec_digits(id).len() as int;
        // the first line terminator closes the first line
        let nl = dlen + 1 + payload.len() as int;
        assert(line.len() == nl + 1);
        assert(forall|m: int| 0 <= m < d.len() ==> d[m] == if m < line.len() as int {
            line[m]
        } else {
            export_text(rest)[m - line.len()]
        });
        assert(forall|m: int| 0 <= m < nl ==> d[m] != 10) by {
            assert(forall|m: int| 0 <= m < dlen ==> line[m] == dec_digits(id)[m]);
            assert(line[dlen] == 58);
            assert(forall|m: int| dlen + 1 <= m < nl ==> line[m] == payload[m - dlen - 1]);
        }
        assert(d[nl] == line[nl] && line[nl] == 10);
        lemma_first_idx_of(d, 10, nl);
        let head = d.take(nl);
        // the first colon ends the decimal id
        assert(forall|m: int| 0 <= m < dlen ==> head[m] == dec_digits(id)[m] && head[m] != 58);
        assert(head[dlen] == 58);
        lemma_first_idx_of(head, 58, dlen);
        assert(head.skip(dlen + 1) =~= payload);
        assert(line_payload(head) == Some(payload));
        // the remaining text is exactly the export of the remaining records
        assert(d.skip(nl + 1) =~= export_text(rest));
        assert(forall|i: int, j: int|
            0 <= i < rest.len() && 0 <= j < rest[i].1.len() ==> rest[i].1 == recs[i + 1].1
                && #[trigger] rest[i].1[j] != 10);
        lemma_export_import_round_trip(rest);
        assert(import_payloads(d) == seq![payload] + import_payloads(export_text(rest)));
        assert(forall|i: int|
            1 <= i < recs.len() ==> import_payloads(d)[i] == import_payloads(export_text(rest))[i
                - 1]);
    } else {
        assert(export_text(recs) =~= Seq::<u8>::empty());
    }
}

/// The first index in `[from, to)` holding `c`, or `to` if there is
/// none.
#[verifier::loop_isolation(false)]
fn find_byte(data: &[u8], from: usize, to: usize, c: u8) -> (r: usize)
    requires
        from <= to <= data@.len(),
    ensures
        from <= r <= to,
        forall|m: int| from <= m < r ==> data@[m] != c,
        r < to ==> data@[r as int] == c,
{
    let mut i: usize = from;
    while i < to
        invariant
            from <= i <= to,
            forall|m: int| from <= m < i ==> data@[m] != c,
        decreases to - i,
    {
        if data[i] == c {
            return i;
        }
        i += 1;
    }
    to
}

/// Copy the bytes in `[from, to)` out of a slice.
#[verifier::loop_isolation(false)]
fn copy_range(data: &[u8], from: usize, to: usize) -> (r: Vec<u8>)
    requires
        from <= to <= data@.len(),
    ensures
        r@ == data@.subrange(from as int, to as int),
{
    let mut r: Vec<u8> = Vec::new();
    let mut i: usize = from;
    while i < to
        invariant
            from <= i <= to,
            r@ == data@.subrange(from as int, i as int),
        decreases to - i,
    {
        r.push(data[i]);
        i += 1;
        proof {
            assert(data@.subrange(from as int, i as int) =~= data@.subrange(
                from as int,
                i as int - 1,
            ).push(data@[i as int - 1]));
        }
    }
    r
}

#[verifier::loop_isolation(false)]
fn collect_payloads(data: &[u8], from: usize) -> (r: Vec<Vec<u8>>)
    requires
        from <= data@.len(),
    ensures
        r@.len() == import_payloads(data@.skip(from as int)).len(),
        forall|i: int|
            0 <= i < r@.len() ==> r@[i]@ == import_payloads(data@.skip(from as int))[i],
    decreases data@.len() - from,
{
    let n = data.len();
    let ghost suffix = data@.skip(from as int);
    if from == n {
        proof {
            assert(suffix =~= Seq::<u8>::empty());
        }
        return Vec::new();
    }
    let j = find_byte(data, from, n, 10);
    proof {
        assert(forall|m: int| 0 <= m < j - from ==> suffix[m] == data@[m + from]);
        if j < n {
            assert(suffix[j - from] == data@[j as int]);
        }
        lemma_first_idx_of(suffix, 10, j - from);
    }
    let k = find_byte(data, from, j, 58);
    let ghost line = suffix.take(j - from);
    proof {
        assert(line =~= data@.subrange(from as int, j as int));
        assert(forall|m: int| 0 <= m < k - from ==> line[m] == data@[m + from]);
        if k < j {
            assert(line[k - from] == data@[k as int]);
        }
        lemma_first_idx_of(line, 58, k - from);
    }
    let mut rest: Vec<Vec<u8>> = if j < n {
        let more = collect_payloads(data, j + 1);
        proof {
            assert(suffix.skip(j - from + 1) =~= data@.skip(j as int + 1));
        }
        more
    } else {
        Vec::new()
    };
    if k < j {
        let p = copy_range(data, k + 1, j);
        proof {
            assert(p@ =~= line.skip(k - from + 1));
        }
        let ghost rest_before = rest@;
        rest.insert(0, p);
        proof {
            assert(rest@[0] == p);
            assert(forall|i: int| 1 <= i < rest@.len() ==> rest@[i] == rest_before[i - 1]);
        }
        rest
    } else {
        rest
    }
}

/// Recover the payloads carried by import text: one per line holding a
/// colon, the bytes after the first colon, in line order.
pub fn extract_payloads(data: &[u8]) -> (r: Vec<Vec<u8>>)
    ensures
        r@.len() == import_payloads(data@).len(),
        forall|i: int| 0 <= i < r@.len() ==> r@[i]@ == import_payloads(data@)[i],
{
    proof {
        assert(data@.skip(0) =~= data@);
    }
    collect_payloads(data, 0)
}

} // verus!
