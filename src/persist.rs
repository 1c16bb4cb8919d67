//! The persisted model format. Integers are little-endian and every count
//! takes eight bytes:
//!
//! - a model is its number of layers, then each layer in order;
//! - a layer is its weight array, its bias array, then its activation tag in
//!   four bytes;
//! - an array is a version byte, its dimensions (rows and columns for the
//!   weights, length for the biases), its element count, then its elements,
//!   four bytes each.
//!
//! Only plain data is stored; a loaded layer is rehydrated from it (see
//! `LayerShape::rehydrate` and `NetworkShape::from_records`).

use vstd::prelude::*;
use vstd::bytes::*;
use crate::activations::ActivationType;
use crate::error::NetError;

verus! {

/// The version byte stored ahead of every parameter array.
pub const ARRAY_VERSION: u8 = 1;

/// The persisted form of a dense layer: the plain data of its parameters and
/// its activation tag, and nothing derived from them (no moment buffers, no
/// forward cache). Each parameter is the IEEE-754 bit pattern of an `f32`.
#[derive(Debug, PartialEq)]
pub struct LayerRecord {
    /// Number of rows of the weight matrix: the layer's output size.
    pub rows: u64,
    /// Number of columns of the weight matrix: the layer's input size.
    pub cols: u64,
    /// The weight matrix, row-major.
    pub weights: Vec<u32>,
    pub biases: Vec<u32>,
    pub activation: ActivationType,
}

/// The mathematical content of a `LayerRecord`.
pub struct RecordView {
    pub rows: nat,
    pub cols: nat,
    pub weights: Seq<u32>,
    pub biases: Seq<u32>,
    pub activation: ActivationType,
}

impl View for LayerRecord {
    type V = RecordView;

    open spec fn view(&self) -> RecordView {
        RecordView {
            rows: self.rows as nat,
            cols: self.cols as nat,
            weights: self.weights@,
            biases: self.biases@,
            activation: self.activation,
        }
    }
}

impl RecordView {
    /// The weight data fills the declared matrix exactly, and every count
    /// fits the 64-bit fields of the format.
    pub open spec fn wf(self) -> bool {
        &&& self.weights.len() == self.rows * self.cols
        &&& self.rows <= u64::MAX
        &&& self.cols <= u64::MAX
        &&& self.weights.len() <= u64::MAX
        &&& self.biases.len() <= u64::MAX
    }
}

impl LayerRecord {
    /// The weight data fills the declared matrix exactly.
    pub open spec fn wf(&self) -> bool {
        self.weights@.len() == self.rows * self.cols
    }
}

/// The views of a sequence of records.
pub open spec fn views(rs: Seq<LayerRecord>) -> Seq<RecordView> {
    rs.map_values(|r: LayerRecord| r@)
}

// ---- encoding ----

/// `n` as eight little-endian bytes.
pub open spec fn le64(n: nat) -> Seq<u8> {
    spec_u64_to_le_bytes(n as u64)
}

/// Each word as four little-endian bytes, in order.
pub open spec fn words_bytes(w: Seq<u32>) -> Seq<u8>
    decreases w.len(),
{
    if w.len() == 0 {
        Seq::empty()
    } else {
        words_bytes(w.drop_last()) + spec_u32_to_le_bytes(w.last())
    }
}

/// Version byte, the dimensions, the element count, then the elements.
pub open spec fn matrix_bytes(rows: nat, cols: nat, w: Seq<u32>) -> Seq<u8> {
    seq![ARRAY_VERSION] + le64(rows) + le64(cols) + le64(w.len()) + words_bytes(w)
}

pub open spec fn vector_bytes(b: Seq<u32>) -> Seq<u8> {
    seq![ARRAY_VERSION] + le64(b.len()) + le64(b.len()) + words_bytes(b)
}

/// A layer: its weight matrix, its bias vector, then its activation tag.
pub open spec fn record_bytes(r: RecordView) -> Seq<u8> {
    matrix_bytes(r.rows, r.cols, r.weights) + vector_bytes(r.biases) + spec_u32_to_le_bytes(
        r.activation.spec_tag(),
    )
}

/// The layers one after the other.
pub open spec fn records_bytes(rs: Seq<RecordView>) -> Seq<u8>
    decreases rs.len(),
{
    if rs.len() == 0 {
        Seq::empty()
    } else {
        records_bytes(rs.drop_last()) + record_bytes(rs.last())
    }
}

/// A persisted model: the number of layers, then each layer in order.
pub open spec fn model_bytes(rs: Seq<RecordView>) -> Seq<u8> {
    le64(rs.len()) + records_bytes(rs)
}

// ---- decoding ----

/// The eight-byte count at position `p`.
pub open spec fn u64_at(s: Seq<u8>, p: int) -> nat {
    spec_u64_from_le_bytes(s.subrange(p, p + 8)) as nat
}

/// The four-byte word at position `p`.
pub open spec fn u32_at(s: Seq<u8>, p: int) -> u32 {
    spec_u32_from_le_bytes(s.subrange(p, p + 4))
}

/// The first `n` little-endian words of `s`.
pub open spec fn words_at(s: Seq<u8>, n: nat) -> Seq<u32> {
    Seq::new(n, |i: int| u32_at(s, 4 * i))
}

/// Reads one layer from the front of `s`, with what follows it.
pub open spec fn read_record(s: Seq<u8>) -> Option<(RecordView, Seq<u8>)> {
    if s.len() < 25 || s[0] != ARRAY_VERSION {
        None
    } else {
        let rows = u64_at(s, 1);
        let cols = u64_at(s, 9);
        let n = u64_at(s, 17);
        let s1 = s.skip(25);
        if n != rows * cols || s1.len() < 4 * n {
            None
        } else {
            let w = words_at(s1, n);
            let s2 = s1.skip((4 * n) as int);
            if s2.len() < 17 || s2[0] != ARRAY_VERSION {
                None
            } else {
                let bl = u64_at(s2, 1);
                let bn = u64_at(s2, 9);
                let s3 = s2.skip(17);
                if bl != bn || s3.len() < 4 * bn + 4 {
                    None
                } else {
                    match ActivationType::spec_from_tag(u32_at(s3, (4 * bn) as int)) {
                        None => None,
                        Some(a) => Some(
                            (
                                RecordView {
                                    rows,
                                    cols,
                                    weights: w,
                                    biases: words_at(s3, bn),
                                    activation: a,
                                },
                                s3.skip((4 * bn + 4) as int),
                            ),
                        ),
                    }
                }
            }
        }
    }
}

/// Reads `n` layers one after the other from the front of `s`.
pub open spec fn read_records(s: Seq<u8>, n: nat) -> Option<(Seq<RecordView>, Seq<u8>)>
    decreases n,
{
    if n == 0 {
        Some((Seq::empty(), s))
    } else {
        match read_records(s, (n - 1) as nat) {
            None => None,
            Some((rs, t)) => match read_record(t) {
                None => None,
                Some((r, u)) => Some((rs.push(r), u)),
            },
        }
    }
}

/// The model a byte string holds, if it is well formed. Bytes after the
/// last layer are ignored.
pub open spec fn read_model(s: Seq<u8>) -> Option<Seq<RecordView>> {
    if s.len() < 8 {
        None
    } else {
        match read_records(s.skip(8), u64_at(s, 0)) {
            None => None,
            Some((rs, _)) => Some(rs),
        }
    }
}

// ---- executable codec ----

fn push_u64(out: &mut Vec<u8>, x: u64)
    ensures
        final(out)@ == old(out)@ + le64(x as nat),
{
    let mut b = u64_to_le_bytes(x);
    out.append(&mut b);
}

fn push_words(out: &mut Vec<u8>, w: &Vec<u32>)
    ensures
        final(out)@ == old(out)@ + words_bytes(w@),
{
    let ghost start = out@;
    let mut i: usize = 0;
    while i < w.len()
        invariant
            i <= w@.len(),
            out@ == start + words_bytes(w@.take(i as int)),
        decreases w@.len() - i,
    {
        let mut b = u32_to_le_bytes(w[i]);
        out.append(&mut b);
        proof {
            let t = w@.take(i as int + 1);
            assert(t.drop_last() =~= w@.take(i as int));
            assert(t.last() == w@[i as int]);
        }
        i = i + 1;
    }
    assert(w@.take(i as int) =~= w@);
}

fn push_record(out: &mut Vec<u8>, r: &LayerRecord)
    ensures
        final(out)@ == old(out)@ + record_bytes(r@),
{
    let ghost start = out@;
    out.push(ARRAY_VERSION);
    push_u64(out, r.rows);
    push_u64(out, r.cols);
    push_u64(out, r.weights.len() as u64);
    push_words(out, &r.weights);
    out.push(ARRAY_VERSION);
    push_u64(out, r.biases.len() as u64);
    push_u64(out, r.biases.len() as u64);
    push_words(out, &r.biases);
    let mut t = u32_to_le_bytes(r.activation.tag());
    out.append(&mut t);
    assert(out@ =~= start + record_bytes(r@));
}

/// Serialises a model, layer by layer, into its persisted byte form.
pub fn encode_model(records: &Vec<LayerRecord>) -> (r: Vec<u8>)
    ensures
        r@ == model_bytes(views(records@)),
{
    let mut out: Vec<u8> = Vec::new();
    push_u64(&mut out, records.len() as u64);
    let ghost head = out@;
    let mut i: usize = 0;
    while i < records.len()
        invariant
            i <= records@.len(),
            head == le64(records@.len()),
            out@ == head + records_bytes(views(records@.take(i as int))),
        decreases records@.len() - i,
    {
        push_record(&mut out, &records[i]);
        proof {
            let t = views(records@.take(i as int + 1));
            assert(t.drop_last() =~= views(records@.take(i as int)));
            assert(t.last() == records@[i as int]@);
            assert(out@ =~= head + records_bytes(t));
        }
        i = i + 1;
    }
    assert(records@.take(i as int) =~= records@);
    out
}

fn read_u64_at(bytes: &[u8], p: usize) -> (x: u64)
    requires
        p + 8 <= bytes@.len(),
    ensures
        x as nat == u64_at(bytes@, p as int),
{
    let _len = bytes.len();
    u64_from_le_bytes(&bytes[p..p + 8])
}

fn read_u32_at(bytes: &[u8], p: usize) -> (x: u32)
    requires
        p + 4 <= bytes@.len(),
    ensures
        x == u32_at(bytes@, p as int),
{
    let _len = bytes.len();
    u32_from_le_bytes(&bytes[p..p + 4])
}

fn read_words_at(bytes: &[u8], p: usize, n: usize) -> (r: Vec<u32>)
    requires
        p + 4 * n <= bytes@.len(),
    ensures
        r@ == words_at(bytes@.skip(p as int), n as nat),
{
    let ghost s = bytes@.skip(p as int);
    let len = bytes.len();
    let mut r: Vec<u32> = Vec::new();
    let mut i: usize = 0;
    while i < n
        invariant
            i <= n,
            p + 4 * n <= len,
            len == bytes@.len(),
            s == bytes@.skip(p as int),
            r@.len() == i,
            forall|k: int| 0 <= k < i ==> r@[k] == u32_at(s, 4 * k),
        decreases n - i,
    {
        let x = read_u32_at(bytes, p + 4 * i);
        assert(s.subrange(4 * i as int, 4 * i as int + 4) =~= bytes@.subrange(
            p + 4 * i as int,
            p + 4 * i as int + 4,
        ));
        r.push(x);
        i = i + 1;
    }
    assert(r@ =~= words_at(s, n as nat));
    r
}

/// Decodes the layer that starts at position `p`, with the position just
/// after it.
fn decode_record(bytes: &[u8], p: usize) -> (r: Option<(LayerRecord, usize)>)
    requires
        p <= bytes@.len(),
    ensures
        match r {
            Some((rec, q)) => p <= q <= bytes@.len() && rec.wf() && read_record(
                bytes@.skip(p as int),
            ) == Some((rec@, bytes@.skip(q as int))),
            None => read_record(bytes@.skip(p as int)).is_none(),
        },
{
    let ghost s = bytes@.skip(p as int);
    let len = bytes.len();
    if len - p < 25 || bytes[p] != ARRAY_VERSION {
        return None;
    }
    let rows = read_u64_at(bytes, p + 1);
    let cols = read_u64_at(bytes, p + 9);
    let n = read_u64_at(bytes, p + 17);
    assert(s.subrange(1, 9) =~= bytes@.subrange(p + 1, p + 9));
    assert(s.subrange(9, 17) =~= bytes@.subrange(p + 9, p + 17));
    assert(s.subrange(17, 25) =~= bytes@.subrange(p + 17, p + 25));
    match rows.checked_mul(cols) {
        None => {
            return None;
        },
        Some(m) => {
            if m != n {
                return None;
            }
        },
    }
    let q = p + 25;
    let ghost s1 = s.skip(25);
    assert(s1 =~= bytes@.skip(q as int));
    let avail = (len - q) as u64;
    proof {
        lemma_fits_words(avail as int, n as int);
    }
    if avail / 4 < n {
        return None;
    }
    let nu = n as usize;
    let weights = read_words_at(bytes, q, nu);
    let q2 = q + 4 * nu;
    let ghost s2 = s1.skip(4 * n as int);
    assert(s2 =~= bytes@.skip(q2 as int));
    if len - q2 < 17 || bytes[q2] != ARRAY_VERSION {
        return None;
    }
    let bl = read_u64_at(bytes, q2 + 1);
    let bn = read_u64_at(bytes, q2 + 9);
    assert(s2.subrange(1, 9) =~= bytes@.subrange(q2 + 1, q2 + 9));
    assert(s2.subrange(9, 17) =~= bytes@.subrange(q2 + 9, q2 + 17));
    if bl != bn {
        return None;
    }
    let q3 = q2 + 17;
    let ghost s3 = s2.skip(17);
    assert(s3 =~= bytes@.skip(q3 as int));
    let avail3 = (len - q3) as u64;
    if avail3 < 4 {
        return None;
    }
    proof {
        lemma_fits_words(avail3 - 4, bn as int);
    }
    if (avail3 - 4) / 4 < bn {
        return None;
    }
    let bnu = bn as usize;
    let biases = read_words_at(bytes, q3, bnu);
    let tag = read_u32_at(bytes, q3 + 4 * bnu);
    assert(s3.subrange(4 * bn as int, 4 * bn as int + 4) =~= bytes@.subrange(
        q3 + 4 * bn as int,
        q3 + 4 * bn as int + 4,
    ));
    match ActivationType::from_tag(tag) {
        None => None,
        Some(activation) => {
            let end = q3 + 4 * bnu + 4;
            assert(s3.skip(4 * bn as int + 4) =~= bytes@.skip(end as int));
            let rec = LayerRecord { rows, cols, weights, biases, activation };
            Some((rec, end))
        },
    }
}

proof fn lemma_fits_words(a: int, n: int)
    requires
        a >= 0,
        n >= 0,
    ensures
        (a / 4 < n) <==> (a < 4 * n),
{
}

proof fn lemma_read_records_stays_none(s: Seq<u8>, k: nat, m: nat)
    requires
        k <= m,
        read_records(s, k).is_none(),
    ensures
        read_records(s, m).is_none(),
    decreases m - k,
{
    if k < m {
        lemma_read_records_stays_none(s, k, (m - 1) as nat);
    }
}

/// Reads a persisted model back into its layer records. Fails, with nothing
/// partially loaded, exactly when the bytes do not begin with a well-formed
/// model; bytes after the last layer are ignored.
pub fn decode_model(bytes: &[u8]) -> (r: Result<Vec<LayerRecord>, NetError>)
    ensures
        match r {
            Ok(v) => read_model(bytes@) == Some(views(v@)) && forall|i: int|
                0 <= i < v@.len() ==> (#[trigger] v@[i]).wf(),
            Err(e) => read_model(bytes@).is_none() && e == NetError::Deserialization,
        },
{
    if bytes.len() < 8 {
        return Err(NetError::Deserialization);
    }
    let count = read_u64_at(bytes, 0);
    let ghost s = bytes@.skip(8);
    let mut out: Vec<LayerRecord> = Vec::new();
    let mut pos: usize = 8;
    let mut i: u64 = 0;
    assert(read_records(s, 0) == Some((views(out@), bytes@.skip(pos as int)))) by {
        assert(views(out@) =~= Seq::<RecordView>::empty());
    }
    while i < count
        invariant
            8 <= pos <= bytes@.len(),
            i <= count,
            s == bytes@.skip(8),
            count as nat == u64_at(bytes@, 0),
            read_records(s, i as nat) == Some((views(out@), bytes@.skip(pos as int))),
            forall|k: int| 0 <= k < out@.len() ==> (#[trigger] out@[k]).wf(),
        decreases count - i,
    {
        match decode_record(bytes, pos) {
            None => {
                proof {
                    lemma_read_records_stays_none(s, (i + 1) as nat, count as nat);
                }
                return Err(NetError::Deserialization);
            },
            Some((rec, next)) => {
                let ghost old_views = views(out@);
                out.push(rec);
                assert(views(out@) =~= old_views.push(rec@));
                pos = next;
                i = i + 1;
            },
        }
    }
    Ok(out)
}

// ---- proofs ----

proof fn lemma_words_bytes(w: Seq<u32>)
    ensures
        words_bytes(w).len() == 4 * w.len(),
        forall|i: int|
            0 <= i < w.len() ==> #[trigger] words_bytes(w).subrange(4 * i, 4 * i + 4)
                == spec_u32_to_le_bytes(w[i]),
    decreases w.len(),
{
    lemma_auto_spec_u32_to_from_le_bytes();
    if w.len() > 0 {
        let v = w.drop_last();
        lemma_words_bytes(v);
        let a = words_bytes(v);
        let b = spec_u32_to_le_bytes(w.last());
        assert forall|i: int| 0 <= i < w.len() implies #[trigger] words_bytes(w).subrange(
            4 * i,
            4 * i + 4,
        ) == spec_u32_to_le_bytes(w[i]) by {
            if i < v.len() {
                assert(words_bytes(w).subrange(4 * i, 4 * i + 4) =~= a.subrange(4 * i, 4 * i + 4));
            } else {
                assert(words_bytes(w).subrange(4 * i, 4 * i + 4) =~= b);
            }
        }
    }
}

proof fn lemma_words_at(w: Seq<u32>, rest: Seq<u8>)
    ensures
        words_at(words_bytes(w) + rest, w.len()) == w,
        (words_bytes(w) + rest).skip(4 * w.len() as int) == rest,
{
    lemma_words_bytes(w);
    lemma_auto_spec_u32_to_from_le_bytes();
    let s = words_bytes(w) + rest;
    assert forall|i: int| 0 <= i < w.len() implies words_at(s, w.len())[i] == w[i] by {
        assert(s.subrange(4 * i, 4 * i + 4) =~= words_bytes(w).subrange(4 * i, 4 * i + 4));
    }
    assert(words_at(s, w.len()) =~= w);
    assert(s.skip(4 * w.len() as int) =~= rest);
}

proof fn lemma_u64_round_trip(x: nat)
    requires
        x <= u64::MAX,
    ensures
        le64(x).len() == 8,
        spec_u64_from_le_bytes(le64(x)) as nat == x,
{
    lemma_auto_spec_u64_to_from_le_bytes();
}

proof fn lemma_read_record(r: RecordView, rest: Seq<u8>)
    requires
        r.wf(),
    ensures
        read_record(record_bytes(r) + rest) == Some((r, rest)),
{
    lemma_auto_spec_u32_to_from_le_bytes();
    lemma_words_bytes(r.weights);
    lemma_words_bytes(r.biases);
    lemma_u64_round_trip(r.rows);
    lemma_u64_round_trip(r.cols);
    lemma_u64_round_trip(r.weights.len());
    lemma_u64_round_trip(r.biases.len());
    let n = r.weights.len();
    let bn = r.biases.len();
    let ww = words_bytes(r.weights);
    let bb = words_bytes(r.biases);
    let tt = spec_u32_to_le_bytes(r.activation.spec_tag());
    let mid = seq![ARRAY_VERSION] + le64(bn) + le64(bn);
    let s = record_bytes(r) + rest;
    assert(s.subrange(1, 9) =~= le64(r.rows));
    assert(s.subrange(9, 17) =~= le64(r.cols));
    assert(s.subrange(17, 25) =~= le64(n));
    let after_b = tt + rest;
    let after_w = mid + (bb + after_b);
    let s1 = s.skip(25);
    assert(s1 =~= ww + after_w);
    lemma_words_at(r.weights, after_w);
    let s2 = s1.skip(4 * n as int);
    assert(s2 == after_w);
    assert(s2.subrange(1, 9) =~= le64(bn));
    assert(s2.subrange(9, 17) =~= le64(bn));
    let s3 = s2.skip(17);
    assert(s3 =~= bb + after_b);
    lemma_words_at(r.biases, after_b);
    assert(s3.subrange(4 * bn as int, 4 * bn as int + 4) =~= tt);
    assert(s3.skip(4 * bn as int + 4) =~= rest);
    assert(ActivationType::spec_from_tag(r.activation.spec_tag()) == Some(r.activation));
}

proof fn lemma_read_records(rs: Seq<RecordView>, rest: Seq<u8>)
    requires
        forall|i: int| 0 <= i < rs.len() ==> (#[trigger] rs[i]).wf(),
    ensures
        read_records(records_bytes(rs) + rest, rs.len()) == Some((rs, rest)),
    decreases rs.len(),
{
    if rs.len() == 0 {
        assert(records_bytes(rs) + rest =~= rest);
    } else {
        let v = rs.drop_last();
        let last = rs.last();
        let tail = record_bytes(last) + rest;
        assert(forall|i: int| 0 <= i < v.len() ==> #[trigger] v[i] == rs[i]);
        lemma_read_records(v, tail);
        assert(records_bytes(rs) + rest =~= records_bytes(v) + tail);
        lemma_read_record(last, rest);
        assert(v.push(last) =~= rs);
    }
}

/// Reading back a saved model gives the same layers, in the same order, with
/// the same parameter bits and activations: nothing that is persisted is lost
/// or altered by a save followed by a load. (`encode_model` writes
/// `model_bytes` of its records and `decode_model` returns what `read_model`
/// finds, so the law carries over to them.)
pub proof fn lemma_load_after_save(rs: Seq<RecordView>)
    requires
        rs.len() <= u64::MAX,
        forall|i: int| 0 <= i < rs.len() ==> (#[trigger] rs[i]).wf(),
    ensures
        read_model(model_bytes(rs)) == Some(rs),
{
    lemma_u64_round_trip(rs.len());
    let s = model_bytes(rs);
    assert(s.subrange(0, 8) =~= le64(rs.len()));
    assert(s.skip(8) =~= records_bytes(rs) + Seq::<u8>::empty());
    lemma_read_records(rs, Seq::<u8>::empty());
}

} // verus!
