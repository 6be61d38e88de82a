//! The artifact codec: a table is written as a length-prefixed binary
//! artifact and read back.
//!
//! Layout: a four-byte magic, one flag byte recording whether the footer is
//! inlined, then the footer (row and column counts) either directly after
//! the flag (inlined) or at the very end (out-of-band), around the body.
//! The body lists every field in row-major order, each as a little-endian
//! `u32` length followed by its bytes.
//!
//! The footer placement is a layout-only toggle: decoding recovers the same
//! grid from either placement, which `lemma_footer_toggle` proves.

use vstd::prelude::*;

use crate::table::{grid_cols, grid_ok, grid_wf, lemma_deep_view_bytes, lemma_deep_view_push, row_wf, Table};

verus! {

/// The four magic bytes that open every artifact.
pub open spec fn magic() -> Seq<u8> {
    seq![70u8, 76u8, 83u8, 49u8]
}

/// The four little-endian bytes of `n`.
pub open spec fn enc_u32(n: u32) -> Seq<u8> {
    seq![
        (n % 256) as u8,
        ((n / 256) % 256) as u8,
        ((n / 65536) % 256) as u8,
        ((n / 16777216) % 256) as u8,
    ]
}

/// The `u32` read little-endian from four bytes.
pub open spec fn dec_u32(b0: u8, b1: u8, b2: u8, b3: u8) -> u32 {
    (b0 + b1 * 256 + b2 * 65536 + b3 * 16777216) as u32
}

/// The `u32` read little-endian from `d` at offset `off`.
pub open spec fn dec_u32_at(d: Seq<u8>, off: int) -> u32 {
    dec_u32(d[off], d[off + 1], d[off + 2], d[off + 3])
}

/// One encoded field: its length prefix followed by its bytes.
pub open spec fn enc_field(f: Seq<u8>) -> Seq<u8> {
    enc_u32(f.len() as u32) + f
}

/// One encoded row: its fields in order.
pub open spec fn enc_row(r: Seq<Seq<u8>>) -> Seq<u8>
    decreases r.len(),
{
    if r.len() == 0 {
        Seq::empty()
    } else {
        enc_field(r[0]) + enc_row(r.drop_first())
    }
}

/// The encoded body: the rows in order.
pub open spec fn enc_rows(rows: Seq<Seq<Seq<u8>>>) -> Seq<u8>
    decreases rows.len(),
{
    if rows.len() == 0 {
        Seq::empty()
    } else {
        enc_row(rows[0]) + enc_rows(rows.drop_first())
    }
}

/// The encoded footer: row count then column count.
pub open spec fn enc_footer(nr: nat, nc: nat) -> Seq<u8> {
    enc_u32(nr as u32) + enc_u32(nc as u32)
}

/// The whole artifact for grid `rows` with `nc` columns, with the footer
/// inlined after the flag byte or placed at the end.
pub open spec fn enc_artifact(rows: Seq<Seq<Seq<u8>>>, nc: nat, inline_footer: bool) -> Seq<u8> {
    if inline_footer {
        magic() + seq![1u8] + enc_footer(rows.len(), nc) + enc_rows(rows)
    } else {
        magic() + seq![0u8] + enc_rows(rows) + enc_footer(rows.len(), nc)
    }
}

/// Parses one field of `d` at `off`: the field bytes and the offset after
/// them, or `None` where the prefix or the bytes run past the end.
pub open spec fn parse_field(d: Seq<u8>, off: int) -> Option<(Seq<u8>, int)> {
    if 0 <= off && off + 4 <= d.len() {
        let n = dec_u32_at(d, off) as int;
        if off + 4 + n <= d.len() {
            Some((d.subrange(off + 4, off + 4 + n), off + 4 + n))
        } else {
            None
        }
    } else {
        None
    }
}

/// Parses `k` consecutive fields of `d` at `off` into one row.
pub open spec fn parse_row(d: Seq<u8>, off: int, k: nat) -> Option<(Seq<Seq<u8>>, int)>
    decreases k,
{
    if k == 0 {
        Some((Seq::empty(), off))
    } else {
        match parse_field(d, off) {
            Some(fo) => match parse_row(d, fo.1, (k - 1) as nat) {
                Some(ro) => Some((seq![fo.0] + ro.0, ro.1)),
                None => None,
            },
            None => None,
        }
    }
}

/// Parses `nr` consecutive rows of `nc` fields each of `d` at `off`.
pub open spec fn parse_rows(d: Seq<u8>, off: int, nr: nat, nc: nat) -> Option<
    (Seq<Seq<Seq<u8>>>, int),
>
    decreases nr,
{
    if nr == 0 {
        Some((Seq::empty(), off))
    } else {
        match parse_row(d, off, nc) {
            Some(ro) => match parse_rows(d, ro.1, (nr - 1) as nat, nc) {
                Some(rso) => Some((seq![ro.0] + rso.0, rso.1)),
                None => None,
            },
            None => None,
        }
    }
}

/// Holds when `d` opens like an artifact: long enough for magic, flag and
/// footer, with the right magic and a known flag byte.
pub open spec fn recognized(d: Seq<u8>) -> bool {
    &&& d.len() >= 13
    &&& d.subrange(0, 4) == magic()
    &&& (d[4] == 0 || d[4] == 1)
}

/// Decodes an artifact: the grid and its column count, or `None` where `d`
/// is not an artifact, its body does not parse, or lengths disagree.
pub open spec fn spec_decode(d: Seq<u8>) -> Option<(Seq<Seq<Seq<u8>>>, nat)> {
    if recognized(d) {
        if d[4] == 1 {
            let nr = dec_u32_at(d, 5) as nat;
            let nc = dec_u32_at(d, 9) as nat;
            match parse_rows(d, 13, nr, nc) {
                Some(o) => if o.1 == d.len() {
                    Some((o.0, nc))
                } else {
                    None
                },
                None => None,
            }
        } else {
            let nr = dec_u32_at(d, d.len() - 8) as nat;
            let nc = dec_u32_at(d, d.len() - 4) as nat;
            match parse_rows(d, 5, nr, nc) {
                Some(o) => if o.1 == d.len() - 8 {
                    Some((o.0, nc))
                } else {
                    None
                },
                None => None,
            }
        }
    } else {
        None
    }
}

/// Reading back the four little-endian bytes of `n` yields `n`.
pub proof fn lemma_dec_enc_u32(n: u32)
    ensures
        dec_u32(enc_u32(n)[0], enc_u32(n)[1], enc_u32(n)[2], enc_u32(n)[3]) == n,
{
    assert(n % 256 + (n / 256 % 256) * 256 + (n / 65536 % 256) * 65536 + (n / 16777216 % 256)
        * 16777216 == n) by (bit_vector);
}

/// Parsing at an offset where `enc_field(f)` was written yields `f` and the
/// offset after it.
pub proof fn lemma_parse_field_enc(d: Seq<u8>, off: int, f: Seq<u8>)
    requires
        f.len() <= u32::MAX,
        0 <= off,
        off + enc_field(f).len() <= d.len(),
        d.subrange(off, off + enc_field(f).len()) == enc_field(f),
    ensures
        parse_field(d, off) == Some((f, off + enc_field(f).len())),
{
    let e = enc_field(f);
    assert forall|i: int| 0 <= i < e.len() implies d[off + i] == e[i] by {
        assert(d.subrange(off, off + e.len())[i] == d[off + i]);
    }
    lemma_dec_enc_u32(f.len() as u32);
    assert(dec_u32_at(d, off) == f.len() as u32) by {
        assert(d.subrange(off, off + e.len())[0] == e[0]);
        assert(d.subrange(off, off + e.len())[1] == e[1]);
        assert(d.subrange(off, off + e.len())[2] == e[2]);
        assert(d.subrange(off, off + e.len())[3] == e[3]);
    }
    assert(d.subrange(off + 4, off + 4 + f.len()) =~= f) by {
        assert forall|j: int| 0 <= j < f.len() implies d[off + 4 + j] == f[j] by {
            assert(d[off + (4 + j)] == e[4 + j]);
        }
    }
}

/// Parsing `r.len()` fields where `enc_row(r)` was written yields `r` and
/// the offset after it.
pub proof fn lemma_parse_row_enc(d: Seq<u8>, off: int, r: Seq<Seq<u8>>)
    requires
        forall|j: int| 0 <= j < r.len() ==> (#[trigger] r[j]).len() <= u32::MAX,
        0 <= off,
        off + enc_row(r).len() <= d.len(),
        d.subrange(off, off + enc_row(r).len()) == enc_row(r),
    ensures
        parse_row(d, off, r.len()) == Some((r, off + enc_row(r).len())),
    decreases r.len(),
{
    let e = enc_row(r);
    assert forall|i: int| 0 <= i < e.len() implies d[off + i] == e[i] by {
        assert(d.subrange(off, off + e.len())[i] == d[off + i]);
    }
    if r.len() == 0 {
        assert(parse_row(d, off, 0) == Some((Seq::<Seq<u8>>::empty(), off)));
        assert(r =~= Seq::<Seq<u8>>::empty());
    } else {
        let f = r[0];
        let rest = r.drop_first();
        let ef = enc_field(f);
        let er = enc_row(rest);
        assert(e == ef + er);
        assert(d.subrange(off, off + ef.len()) =~= ef) by {
            assert forall|i: int| 0 <= i < ef.len() implies d[off + i] == ef[i] by {
                assert(e[i] == ef[i]);
            }
        }
        lemma_parse_field_enc(d, off, f);
        let off2 = off + ef.len();
        assert(d.subrange(off2, off2 + er.len()) =~= er) by {
            assert forall|i: int| 0 <= i < er.len() implies d[off2 + i] == er[i] by {
                assert(d[off + (ef.len() + i)] == e[ef.len() + i]);
                assert(e[ef.len() + i] == er[i]);
            }
        }
        lemma_parse_row_enc(d, off2, rest);
        assert(seq![f] + rest =~= r);
    }
}

/// Parsing `rows.len()` rows where `enc_rows(rows)` was written yields
/// `rows` and the offset after them.
pub proof fn lemma_parse_rows_enc(d: Seq<u8>, off: int, rows: Seq<Seq<Seq<u8>>>, nc: nat)
    requires
        forall|i: int| 0 <= i < rows.len() ==> row_wf(#[trigger] rows[i], nc),
        0 <= off,
        off + enc_rows(rows).len() <= d.len(),
        d.subrange(off, off + enc_rows(rows).len()) == enc_rows(rows),
    ensures
        parse_rows(d, off, rows.len(), nc) == Some((rows, off + enc_rows(rows).len())),
    decreases rows.len(),
{
    let e = enc_rows(rows);
    assert forall|i: int| 0 <= i < e.len() implies d[off + i] == e[i] by {
        assert(d.subrange(off, off + e.len())[i] == d[off + i]);
    }
    if rows.len() == 0 {
        assert(rows =~= Seq::<Seq<Seq<u8>>>::empty());
    } else {
        let r = rows[0];
        let rest = rows.drop_first();
        let er = enc_row(r);
        let ers = enc_rows(rest);
        assert(e == er + ers);
        assert(d.subrange(off, off + er.len()) =~= er) by {
            assert forall|i: int| 0 <= i < er.len() implies d[off + i] == er[i] by {
                assert(e[i] == er[i]);
            }
        }
        assert(row_wf(r, nc));
        lemma_parse_row_enc(d, off, r);
        let off2 = off + er.len();
        assert(d.subrange(off2, off2 + ers.len()) =~= ers) by {
            assert forall|i: int| 0 <= i < ers.len() implies d[off2 + i] == ers[i] by {
                assert(d[off + (er.len() + i)] == e[er.len() + i]);
                assert(e[er.len() + i] == ers[i]);
            }
        }
        assert forall|i: int| 0 <= i < rest.len() implies row_wf(#[trigger] rest[i], nc) by {
            assert(rest[i] == rows[i + 1]);
        }
        lemma_parse_rows_enc(d, off2, rest, nc);
        assert(parse_row(d, off, nc) == Some((r, off2)));
        assert(seq![r] + rest =~= rows);
    }
}

/// Round trip: decoding an artifact written for a well-formed grid yields
/// that grid and its column count back, under either footer placement.
pub proof fn lemma_decode_encode(rows: Seq<Seq<Seq<u8>>>, nc: nat, inline_footer: bool)
    requires
        grid_wf(rows, nc),
    ensures
        recognized(enc_artifact(rows, nc, inline_footer)),
        spec_decode(enc_artifact(rows, nc, inline_footer)) == Some((rows, nc)),
{
    let d = enc_artifact(rows, nc, inline_footer);
    let body = enc_rows(rows);
    let footer = enc_footer(rows.len(), nc);
    lemma_dec_enc_u32(rows.len() as u32);
    lemma_dec_enc_u32(nc as u32);
    if inline_footer {
        assert(d == magic() + seq![1u8] + footer + body);
        assert(d.len() == 13 + body.len());
        assert(d.subrange(0, 4) =~= magic());
        assert(d[4] == 1u8);
        assert(recognized(d));
        assert(dec_u32_at(d, 5) == rows.len() as u32) by {
            let ef = enc_u32(rows.len() as u32);
            assert(d[5] == ef[0] && d[6] == ef[1] && d[7] == ef[2] && d[8] == ef[3]);
        }
        assert(dec_u32_at(d, 9) == nc as u32) by {
            let ef = enc_u32(nc as u32);
            assert(d[9] == ef[0] && d[10] == ef[1] && d[11] == ef[2] && d[12] == ef[3]);
        }
        assert(d.subrange(13, 13 + body.len() as int) =~= body) by {
            assert forall|i: int| 0 <= i < body.len() implies d[13 + i] == body[i] by {}
        }
        lemma_parse_rows_enc(d, 13, rows, nc);
    } else {
        assert(d == magic() + seq![0u8] + body + footer);
        assert(d.len() == 13 + body.len());
        assert(d.subrange(0, 4) =~= magic());
        assert(d[4] == 0u8);
        assert(recognized(d));
        let fstart: int = 5 + body.len() as int;
        assert(fstart == d.len() - 8);
        assert(dec_u32_at(d, d.len() - 8) == rows.len() as u32) by {
            let ef = enc_u32(rows.len() as u32);
            assert(d[fstart] == ef[0] && d[fstart + 1] == ef[1] && d[fstart + 2] == ef[2] && d[
                fstart + 3
            ] == ef[3]);
        }
        assert(dec_u32_at(d, d.len() - 4) == nc as u32) by {
            let ef = enc_u32(nc as u32);
            assert(d[fstart + 4] == ef[0] && d[fstart + 5] == ef[1] && d[fstart + 6] == ef[2] && d[
                fstart + 7
            ] == ef[3]);
        }
        assert(d.subrange(5, 5 + body.len() as int) =~= body) by {
            assert forall|i: int| 0 <= i < body.len() implies d[5 + i] == body[i] by {}
        }
        lemma_parse_rows_enc(d, 5, rows, nc);
    }
}

/// Round trip at the pipeline's grain: a structurally consistent grid,
/// emitted under its own column count with either footer placement, opens
/// as a recognized artifact and decodes back to exactly that grid.
pub proof fn lemma_pipeline_round_trip(g: Seq<Seq<Seq<u8>>>, inline_footer: bool)
    requires
        grid_ok(g),
    ensures
        recognized(enc_artifact(g, grid_cols(g), inline_footer)),
        spec_decode(enc_artifact(g, grid_cols(g), inline_footer)) == Some((g, grid_cols(g))),
{
    lemma_decode_encode(g, grid_cols(g), inline_footer);
}

/// Footer placement is layout-only: artifacts written for the same grid
/// with either placement decode to the same result.
pub proof fn lemma_footer_toggle(rows: Seq<Seq<Seq<u8>>>, nc: nat)
    requires
        grid_wf(rows, nc),
    ensures
        spec_decode(enc_artifact(rows, nc, true)) == spec_decode(enc_artifact(rows, nc, false)),
{
    lemma_decode_encode(rows, nc, true);
    lemma_decode_encode(rows, nc, false);
}

/// Row encoding distributes over concatenation.
proof fn lemma_enc_row_concat(a: Seq<Seq<u8>>, b: Seq<Seq<u8>>)
    ensures
        enc_row(a + b) == enc_row(a) + enc_row(b),
    decreases a.len(),
{
    if a.len() == 0 {
        assert(a + b =~= b);
        assert(enc_row(a) + enc_row(b) =~= enc_row(b));
    } else {
        assert((a + b)[0] == a[0]);
        assert((a + b).drop_first() =~= a.drop_first() + b);
        lemma_enc_row_concat(a.drop_first(), b);
        assert(enc_field(a[0]) + (enc_row(a.drop_first()) + enc_row(b)) =~= (enc_field(a[0])
            + enc_row(a.drop_first())) + enc_row(b));
    }
}

/// Appending one field extends the row encoding by that field.
proof fn lemma_enc_row_snoc(r: Seq<Seq<u8>>, j: int)
    requires
        0 <= j < r.len(),
    ensures
        enc_row(r.take(j + 1)) == enc_row(r.take(j)) + enc_field(r[j]),
{
    assert(r.take(j + 1) =~= r.take(j) + seq![r[j]]);
    lemma_enc_row_concat(r.take(j), seq![r[j]]);
    assert(seq![r[j]].drop_first() =~= Seq::<Seq<u8>>::empty());
    assert(enc_row(Seq::<Seq<u8>>::empty()) == Seq::<u8>::empty());
    assert(seq![r[j]][0] == r[j]);
    assert(enc_row(seq![r[j]]) == enc_field(r[j]) + enc_row(Seq::<Seq<u8>>::empty()));
    assert(enc_field(r[j]) + Seq::<u8>::empty() =~= enc_field(r[j]));
}

/// Body encoding distributes over concatenation.
proof fn lemma_enc_rows_concat(a: Seq<Seq<Seq<u8>>>, b: Seq<Seq<Seq<u8>>>)
    ensures
        enc_rows(a + b) == enc_rows(a) + enc_rows(b),
    decreases a.len(),
{
    if a.len() == 0 {
        assert(a + b =~= b);
        assert(enc_rows(a) + enc_rows(b) =~= enc_rows(b));
    } else {
        assert((a + b)[0] == a[0]);
        assert((a + b).drop_first() =~= a.drop_first() + b);
        lemma_enc_rows_concat(a.drop_first(), b);
        assert(enc_row(a[0]) + (enc_rows(a.drop_first()) + enc_rows(b)) =~= (enc_row(a[0])
            + enc_rows(a.drop_first())) + enc_rows(b));
    }
}

/// Appending one row extends the body encoding by that row.
proof fn lemma_enc_rows_snoc(rows: Seq<Seq<Seq<u8>>>, i: int)
    requires
        0 <= i < rows.len(),
    ensures
        enc_rows(rows.take(i + 1)) == enc_rows(rows.take(i)) + enc_row(rows[i]),
{
    assert(rows.take(i + 1) =~= rows.take(i) + seq![rows[i]]);
    lemma_enc_rows_concat(rows.take(i), seq![rows[i]]);
    assert(seq![rows[i]].drop_first() =~= Seq::<Seq<Seq<u8>>>::empty());
    assert(enc_rows(Seq::<Seq<Seq<u8>>>::empty()) == Seq::<u8>::empty());
    assert(seq![rows[i]][0] == rows[i]);
    assert(enc_rows(seq![rows[i]]) == enc_row(rows[i]) + enc_rows(Seq::<Seq<Seq<u8>>>::empty()));
    assert(enc_row(rows[i]) + Seq::<u8>::empty() =~= enc_row(rows[i]));
}

/// A parsed row has exactly the requested field count, and every field fits
/// the length prefix it was read from.
proof fn lemma_parse_row_wf(d: Seq<u8>, off: int, k: nat)
    ensures
        parse_row(d, off, k) matches Some(o) ==> row_wf(o.0, k),
    decreases k,
{
    if k > 0 {
        match parse_field(d, off) {
            Some(fo) => {
                lemma_parse_row_wf(d, fo.1, (k - 1) as nat);
            },
            None => {},
        }
    }
}

/// A parsed grid has exactly the requested row count, of well-formed rows.
proof fn lemma_parse_rows_wf(d: Seq<u8>, off: int, nr: nat, nc: nat)
    ensures
        parse_rows(d, off, nr, nc) matches Some(o) ==> ({
            &&& o.0.len() == nr
            &&& forall|i: int| 0 <= i < o.0.len() ==> row_wf(#[trigger] o.0[i], nc)
        }),
    decreases nr,
{
    if nr > 0 {
        match parse_row(d, off, nc) {
            Some(ro) => {
                lemma_parse_row_wf(d, off, nc);
                lemma_parse_rows_wf(d, ro.1, (nr - 1) as nat, nc);
            },
            None => {},
        }
    }
}

/// Appends the four little-endian bytes of `n`.
fn push_u32(out: &mut Vec<u8>, n: u32)
    ensures
        final(out)@ == old(out)@ + enc_u32(n),
{
    let ghost orig = out@;
    out.push((n % 256) as u8);
    out.push(((n / 256) % 256) as u8);
    out.push(((n / 65536) % 256) as u8);
    out.push(((n / 16777216) % 256) as u8);
    assert(out@ =~= orig + enc_u32(n));
}

/// Reads a little-endian `u32` at `off`.
fn read_u32(d: &Vec<u8>, off: usize) -> (n: u32)
    requires
        off + 4 <= d@.len(),
    ensures
        n == dec_u32_at(d@, off as int),
{
    let l = d.len();
    assert(off + 4 <= l);
    let b0 = d[off];
    let b1 = d[off + 1];
    let b2 = d[off + 2];
    let b3 = d[off + 3];
    b0 as u32 + (b1 as u32) * 256 + (b2 as u32) * 65536 + (b3 as u32) * 16777216
}

/// Appends one length-prefixed field.
fn push_field(out: &mut Vec<u8>, f: &Vec<u8>)
    requires
        f@.len() <= u32::MAX,
    ensures
        final(out)@ == old(out)@ + enc_field(f@),
{
    let ghost orig = out@;
    push_u32(out, f.len() as u32);
    let ghost base = out@;
    proof {
        assert(out@ =~= base + f@.take(0));
    }
    let mut j: usize = 0;
    while j < f.len()
        invariant
            j <= f@.len(),
            out@ == base + f@.take(j as int),
        decreases f@.len() - j,
    {
        out.push(f[j]);
        assert(out@ =~= base + f@.take(j as int + 1));
        j += 1;
    }
    assert(f@.take(f@.len() as int) =~= f@);
    assert(out@ =~= orig + enc_field(f@));
}

/// Encodes a well-formed table as an artifact, with the footer inlined
/// after the flag byte or placed at the end.
#[verifier::loop_isolation(false)]
pub fn encode_artifact(t: &Table, inline_footer: bool) -> (out: Vec<u8>)
    requires
        t.wf(),
    ensures
        out@ == enc_artifact(t.grid(), t.n_cols as nat, inline_footer),
{
    let ghost g = t.grid();
    let ghost nc = t.n_cols as nat;
    let mut out: Vec<u8> = Vec::new();
    out.push(70u8);
    out.push(76u8);
    out.push(83u8);
    out.push(49u8);
    if inline_footer {
        out.push(1u8);
        push_u32(&mut out, t.rows.len() as u32);
        push_u32(&mut out, t.n_cols as u32);
    } else {
        out.push(0u8);
    }
    let ghost head = out@;
    proof {
        if inline_footer {
            assert(head =~= magic() + seq![1u8] + enc_footer(g.len(), nc));
        } else {
            assert(head =~= magic() + seq![0u8]);
        }
        assert(g.take(0) =~= Seq::<Seq<Seq<u8>>>::empty());
        assert(head + enc_rows(g.take(0)) =~= head);
    }
    let mut i: usize = 0;
    while i < t.rows.len()
        invariant
            t.wf(),
            g == t.grid(),
            nc == t.n_cols as nat,
            i <= t.rows@.len(),
            out@ == head + enc_rows(g.take(i as int)),
        decreases t.rows@.len() - i,
    {
        let row: &Vec<Vec<u8>> = &t.rows[i];
        let ghost rseq = g[i as int];
        proof {
            assert(row_wf(rseq, nc));
            assert(rseq == row.deep_view());
            assert(rseq.take(0) =~= Seq::<Seq<u8>>::empty());
            assert(out@ + enc_row(rseq.take(0)) =~= out@);
        }
        let ghost rows_done = out@;
        let mut j: usize = 0;
        while j < row.len()
            invariant
                row_wf(rseq, nc),
                rseq == row.deep_view(),
                j <= row@.len(),
                rseq.len() == row@.len(),
                out@ == rows_done + enc_row(rseq.take(j as int)),
            decreases row@.len() - j,
        {
            proof {
                assert(rseq[j as int] == row@[j as int].deep_view());
                lemma_deep_view_bytes(row@[j as int]);
            }
            push_field(&mut out, &row[j]);
            proof {
                lemma_enc_row_snoc(rseq, j as int);
                assert(out@ =~= rows_done + enc_row(rseq.take(j as int + 1)));
            }
            j += 1;
        }
        proof {
            assert(rseq.take(rseq.len() as int) =~= rseq);
            lemma_enc_rows_snoc(g, i as int);
            assert(out@ =~= head + enc_rows(g.take(i as int + 1)));
        }
        i += 1;
    }
    proof {
        assert(g.take(g.len() as int) =~= g);
    }
    if !inline_footer {
        push_u32(&mut out, t.rows.len() as u32);
        push_u32(&mut out, t.n_cols as u32);
        assert(out@ =~= magic() + seq![0u8] + enc_rows(g) + enc_footer(g.len(), nc));
    }
    out
}

/// Checks whether `d` opens like an artifact, as `recognized` states.
pub fn is_recognized(d: &Vec<u8>) -> (r: bool)
    ensures
        r == recognized(d@),
{
    if d.len() < 13 {
        return false;
    }
    let m = d[0] == 70 && d[1] == 76 && d[2] == 83 && d[3] == 49;
    proof {
        if m {
            assert(d@.subrange(0, 4) =~= magic()) by {
                assert(d@.subrange(0, 4)[0] == d@[0]);
                assert(d@.subrange(0, 4)[1] == d@[1]);
                assert(d@.subrange(0, 4)[2] == d@[2]);
                assert(d@.subrange(0, 4)[3] == d@[3]);
            }
        } else {
            if d@.subrange(0, 4) == magic() {
                assert(d@[0] == d@.subrange(0, 4)[0]);
                assert(d@[1] == d@.subrange(0, 4)[1]);
                assert(d@[2] == d@.subrange(0, 4)[2]);
                assert(d@[3] == d@.subrange(0, 4)[3]);
            }
        }
    }
    m && d[4] <= 1
}

/// Decodes an artifact back into a table: the inverse of `encode_artifact`
/// on everything the encoder can produce, and `None` on anything that is
/// not a well-formed artifact.
#[verifier::loop_isolation(false)]
pub fn decode_artifact(d: &Vec<u8>) -> (r: Option<Table>)
    ensures
        match r {
            Some(t) => t.wf() && spec_decode(d@) == Some((t.grid(), t.n_cols as nat)),
            None => spec_decode(d@) is None,
        },
{
    if d.len() < 13 {
        return None;
    }
    if !(d[0] == 70 && d[1] == 76 && d[2] == 83 && d[3] == 49) {
        proof {
            if d@.subrange(0, 4) == magic() {
                assert(d@[0] == d@.subrange(0, 4)[0]);
                assert(d@[1] == d@.subrange(0, 4)[1]);
                assert(d@[2] == d@.subrange(0, 4)[2]);
                assert(d@[3] == d@.subrange(0, 4)[3]);
            }
        }
        return None;
    }
    proof {
        assert(d@.subrange(0, 4) =~= magic()) by {
            assert(d@.subrange(0, 4)[0] == d@[0]);
            assert(d@.subrange(0, 4)[1] == d@[1]);
            assert(d@.subrange(0, 4)[2] == d@[2]);
            assert(d@.subrange(0, 4)[3] == d@[3]);
        }
    }
    let flag = d[4];
    if flag > 1 {
        return None;
    }
    assert(recognized(d@));
    let inline_footer: bool = flag == 1;
    let start: usize = if inline_footer {
        13
    } else {
        5
    };
    let body_end: usize = if inline_footer {
        d.len()
    } else {
        d.len() - 8
    };
    let nr: u32 = if inline_footer {
        read_u32(d, 5)
    } else {
        read_u32(d, d.len() - 8)
    };
    let nc: u32 = if inline_footer {
        read_u32(d, 9)
    } else {
        read_u32(d, d.len() - 4)
    };
    let ghost gnr = nr as nat;
    let ghost gnc = nc as nat;
    let mut rows_v: Vec<Vec<Vec<u8>>> = Vec::new();
    let mut off: usize = start;
    let mut i: u32 = 0;
    proof {
        assert(rows_v.deep_view() =~= Seq::<Seq<Seq<u8>>>::empty());
        match parse_rows(d@, start as int, gnr, gnc) {
            Some(o) => {
                assert(rows_v.deep_view() + o.0 =~= o.0);
            },
            None => {},
        }
    }
    while i < nr
        invariant
            recognized(d@),
            i <= nr,
            start <= off <= d@.len(),
            rows_v.deep_view().len() == i as nat,
            match parse_rows(d@, off as int, (nr - i) as nat, gnc) {
                Some(o) => parse_rows(d@, start as int, gnr, gnc) matches Some(w) && w.0
                    == rows_v.deep_view() + o.0 && w.1 == o.1,
                None => parse_rows(d@, start as int, gnr, gnc) is None,
            },
        decreases nr - i,
    {
        let ghost row_start = off;
        let mut fields: Vec<Vec<u8>> = Vec::new();
        let mut off2: usize = off;
        let mut j: u32 = 0;
        proof {
            assert(fields.deep_view() =~= Seq::<Seq<u8>>::empty());
            match parse_row(d@, off as int, gnc) {
                Some(o) => {
                    assert(fields.deep_view() + o.0 =~= o.0);
                },
                None => {},
            }
        }
        while j < nc
            invariant
                recognized(d@),
                j <= nc,
                row_start <= off2 <= d@.len(),
                fields.deep_view().len() == j as nat,
                match parse_row(d@, off2 as int, (nc - j) as nat) {
                    Some(o) => parse_row(d@, row_start as int, gnc) matches Some(w) && w.0
                        == fields.deep_view() + o.0 && w.1 == o.1,
                    None => parse_row(d@, row_start as int, gnc) is None,
                },
            decreases nc - j,
        {
            if d.len() - off2 < 4 {
                proof {
                    assert(parse_field(d@, off2 as int) is None);
                    assert(parse_row(d@, off2 as int, (nc - j) as nat) is None);
                    assert(parse_row(d@, row_start as int, gnc) is None);
                    assert(parse_rows(d@, off as int, (nr - i) as nat, gnc) is None);
                    assert(parse_rows(d@, start as int, gnr, gnc) is None);
                    assert(spec_decode(d@) is None);
                }
                return None;
            }
            let n = read_u32(d, off2);
            let after = off2 + 4;
            if d.len() - after < n as usize {
                proof {
                    assert(parse_field(d@, off2 as int) is None);
                    assert(parse_row(d@, off2 as int, (nc - j) as nat) is None);
                    assert(parse_row(d@, row_start as int, gnc) is None);
                    assert(parse_rows(d@, off as int, (nr - i) as nat, gnc) is None);
                    assert(parse_rows(d@, start as int, gnr, gnc) is None);
                    assert(spec_decode(d@) is None);
                }
                return None;
            }
            let fld = vstd::slice::slice_to_vec(
                vstd::slice::slice_subrange(d.as_slice(), after, after + n as usize),
            );
            let next = after + n as usize;
            let ghost prev_fields = fields;
            let ghost fld_snap = fld;
            proof {
                assert(parse_field(d@, off2 as int) == Some(
                    (d@.subrange(after as int, next as int), next as int),
                ));
                assert(fld@ == d@.subrange(after as int, next as int));
            }
            fields.push(fld);
            proof {
                lemma_deep_view_push(prev_fields, fields, fld_snap);
                lemma_deep_view_bytes(fld_snap);
                let prev = prev_fields.deep_view();
                match parse_row(d@, next as int, (nc - j - 1) as nat) {
                    Some(o) => {
                        assert(parse_row(d@, off2 as int, (nc - j) as nat) matches Some(w) && w.0
                            == seq![fld_snap@] + o.0 && w.1 == o.1);
                        assert(prev + (seq![fld_snap@] + o.0) =~= prev.push(fld_snap@) + o.0);
                    },
                    None => {
                        assert(parse_row(d@, off2 as int, (nc - j) as nat) is None);
                    },
                }
            }
            off2 = next;
            j += 1;
        }
        let ghost prev_rows = rows_v;
        let ghost fields_snap = fields;
        proof {
            assert(parse_row(d@, off2 as int, 0) matches Some(o) && o.0 == Seq::<Seq<u8>>::empty()
                && o.1 == off2 as int);
            assert(fields.deep_view() + Seq::<Seq<u8>>::empty() =~= fields.deep_view());
            assert(parse_row(d@, row_start as int, gnc) matches Some(w) && w.0
                == fields.deep_view() && w.1 == off2 as int);
            match parse_rows(d@, off2 as int, (nr - i - 1) as nat, gnc) {
                Some(o) => {
                    assert(parse_rows(d@, row_start as int, (nr - i) as nat, gnc) matches Some(w2)
                        && w2.0 == seq![fields.deep_view()] + o.0 && w2.1 == o.1);
                    assert(rows_v.deep_view() + (seq![fields.deep_view()] + o.0)
                        =~= rows_v.deep_view().push(fields.deep_view()) + o.0);
                },
                None => {
                    assert(parse_rows(d@, row_start as int, (nr - i) as nat, gnc) is None);
                },
            }
        }
        rows_v.push(fields);
        proof {
            lemma_deep_view_push(prev_rows, rows_v, fields_snap);
        }
        off = off2;
        i += 1;
    }
    proof {
        assert(parse_rows(d@, off as int, 0, gnc) matches Some(o) && o.0
            == Seq::<Seq<Seq<u8>>>::empty() && o.1 == off as int);
        assert(rows_v.deep_view() + Seq::<Seq<Seq<u8>>>::empty() =~= rows_v.deep_view());
        assert(parse_rows(d@, start as int, gnr, gnc) matches Some(w) && w.0
            == rows_v.deep_view() && w.1 == off as int);
    }
    if off != body_end {
        return None;
    }
    proof {
        lemma_parse_rows_wf(d@, start as int, gnr, gnc);
        assert(grid_wf(rows_v.deep_view(), gnc));
    }
    Some(Table { n_cols: nc as usize, rows: rows_v })
}

} // verus!
