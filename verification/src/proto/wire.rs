//! The protobuf wire format: varints, field keys, and a message as a sequence of fields.
use vstd::prelude::*;
use crate::bytes::{copy_range, push_bytes};

verus! {

/// The LEB128 varint of `v`: seven bits per byte, least significant first, the high bit
/// set on every byte but the last.
pub open spec fn varint(v: nat) -> Seq<u8>
    decreases v,
{
    if v < 128 {
        seq![v as u8]
    } else {
        seq![(v % 128 + 128) as u8] + varint(v / 128)
    }
}

/// 128 to the power `k`.
pub open spec fn pow128(k: nat) -> nat
    decreases k,
{
    if k == 0 {
        1
    } else {
        128 * pow128((k - 1) as nat)
    }
}

/// Reads a varint of at most `budget` bytes at `p`: its value and the position after it.
pub open spec fn varint_at(d: Seq<u8>, p: int, budget: nat) -> Option<(nat, int)>
    decreases budget,
{
    if budget == 0 || p < 0 || p >= d.len() {
        None
    } else if d[p] < 128 {
        Some((d[p] as nat, p + 1))
    } else {
        match varint_at(d, p + 1, (budget - 1) as nat) {
            None => None,
            Some((r, q)) => Some((((d[p] - 128) + 128 * r) as nat, q)),
        }
    }
}

/// Reads a varint at `p` as the format allows it: at most ten bytes and a value that fits
/// in 64 bits.
pub open spec fn read_varint(d: Seq<u8>, p: int) -> Option<(u64, int)> {
    match varint_at(d, p, 10) {
        Some((v, q)) => if v <= u64::MAX {
            Some((v as u64, q))
        } else {
            None
        },
        None => None,
    }
}

/// The payload of a field as read from the wire. Fixed-width payloads are skipped, as no
/// message of this library has a fixed-width field.
#[derive(Debug, Clone)]
pub enum WireValue {
    Varint(u64),
    Fixed64,
    Len(Vec<u8>),
    Fixed32,
}

/// A field: its number and its payload.
#[derive(Debug, Clone)]
pub struct WireField {
    pub tag: u32,
    pub value: WireValue,
}

/// The mathematical content of a payload.
pub enum WireValueView {
    Varint(u64),
    Fixed64,
    Len(Seq<u8>),
    Fixed32,
}

/// The mathematical content of a field.
pub struct WireFieldView {
    pub tag: u32,
    pub value: WireValueView,
}

impl View for WireField {
    type V = WireFieldView;

    open spec fn view(&self) -> WireFieldView {
        WireFieldView {
            tag: self.tag,
            value: match self.value {
                WireValue::Varint(v) => WireValueView::Varint(v),
                WireValue::Fixed64 => WireValueView::Fixed64,
                WireValue::Len(b) => WireValueView::Len(b@),
                WireValue::Fixed32 => WireValueView::Fixed32,
            },
        }
    }
}

/// The views of a sequence of fields.
pub open spec fn field_views(v: Seq<WireField>) -> Seq<WireFieldView> {
    v.map_values(|f: WireField| f@)
}

/// Reads a field key at `p`: the field number, the wire type and the position after it.
/// A key must fit in 32 bits, name a field number of at least 1, and a wire type of at
/// most 5.
pub open spec fn read_key(d: Seq<u8>, p: int) -> Option<(u32, nat, int)> {
    match read_varint(d, p) {
        None => None,
        Some((k, q)) => if k > u32::MAX || k % 8 > 5 || k / 8 < 1 {
            None
        } else {
            Some(((k / 8) as u32, (k % 8) as nat, q))
        },
    }
}

/// Reads one field at `p`. Group-delimited fields (wire types 3 and 4), a deprecated
/// encoding that no message of this library uses, are refused.
pub open spec fn read_field(d: Seq<u8>, p: int) -> Option<(WireFieldView, int)> {
    match read_key(d, p) {
        None => None,
        Some((tag, wt, q)) => if wt == 0 {
            match read_varint(d, q) {
                None => None,
                Some((v, r)) => Some((WireFieldView { tag, value: WireValueView::Varint(v) }, r)),
            }
        } else if wt == 1 {
            if q + 8 <= d.len() {
                Some((WireFieldView { tag, value: WireValueView::Fixed64 }, q + 8))
            } else {
                None
            }
        } else if wt == 2 {
            match read_varint(d, q) {
                None => None,
                Some((n, r)) => if n <= d.len() - r {
                    Some(
                        (
                            WireFieldView { tag, value: WireValueView::Len(d.subrange(r, r + n)) },
                            r + n,
                        ),
                    )
                } else {
                    None
                },
            }
        } else if wt == 5 {
            if q + 4 <= d.len() {
                Some((WireFieldView { tag, value: WireValueView::Fixed32 }, q + 4))
            } else {
                None
            }
        } else {
            None
        },
    }
}

/// Reads fields from `p` to the end of `d`.
pub open spec fn read_fields(d: Seq<u8>, p: int) -> Option<Seq<WireFieldView>>
    decreases d.len() - p,
{
    if p >= d.len() {
        Some(seq![])
    } else {
        match read_field(d, p) {
            None => None,
            Some((f, q)) => if q <= p || q > d.len() {
                None
            } else {
                match read_fields(d, q) {
                    None => None,
                    Some(fs) => Some(seq![f] + fs),
                }
            },
        }
    }
}

/// The wire type of a payload.
pub open spec fn wire_type(v: WireValueView) -> nat {
    match v {
        WireValueView::Varint(_) => 0,
        WireValueView::Fixed64 => 1,
        WireValueView::Len(_) => 2,
        WireValueView::Fixed32 => 5,
    }
}

/// The bytes of a field: its key, then its payload (a fixed-width payload as zeros).
pub open spec fn field_bytes(f: WireFieldView) -> Seq<u8> {
    varint((f.tag * 8 + wire_type(f.value)) as nat) + match f.value {
        WireValueView::Varint(v) => varint(v as nat),
        WireValueView::Fixed64 => Seq::new(8, |i: int| 0u8),
        WireValueView::Len(b) => varint(b.len()) + b,
        WireValueView::Fixed32 => Seq::new(4, |i: int| 0u8),
    }
}

/// The bytes of a sequence of fields, one after another.
pub open spec fn fields_bytes(fs: Seq<WireFieldView>) -> Seq<u8>
    decreases fs.len(),
{
    if fs.len() == 0 {
        seq![]
    } else {
        field_bytes(fs[0]) + fields_bytes(fs.drop_first())
    }
}

/// A field that the wire format can carry: a field number in `1 .. 2^29` and a
/// length-delimited payload whose length fits in 64 bits.
pub open spec fn field_encodable(f: WireFieldView) -> bool {
    &&& 1 <= f.tag < 0x2000_0000
    &&& f.value matches WireValueView::Len(b) ==> b.len() <= u64::MAX
}

/// The field, if the condition holds; nothing otherwise.
pub open spec fn field_if(c: bool, f: WireFieldView) -> Seq<WireFieldView> {
    if c {
        seq![f]
    } else {
        seq![]
    }
}

/// A varint field.
pub open spec fn varint_field(tag: u32, v: u64) -> WireFieldView {
    WireFieldView { tag, value: WireValueView::Varint(v) }
}

/// A length-delimited field.
pub open spec fn len_field(tag: u32, b: Seq<u8>) -> WireFieldView {
    WireFieldView { tag, value: WireValueView::Len(b) }
}

/// Applies `step` to each field in turn, starting from `acc`; fails at the first field
/// that `step` refuses.
pub open spec fn fold_fields<A>(
    fs: Seq<WireFieldView>,
    acc: A,
    step: spec_fn(A, WireFieldView) -> Option<A>,
) -> Option<A>
    decreases fs.len(),
{
    if fs.len() == 0 {
        Some(acc)
    } else {
        match step(acc, fs[0]) {
            None => None,
            Some(a) => fold_fields(fs.drop_first(), a, step),
        }
    }
}

/// Every field of the sequence can be carried by the wire format.
pub open spec fn fields_encodable(fs: Seq<WireFieldView>) -> bool {
    forall|i: int| 0 <= i < fs.len() ==> #[trigger] field_encodable(fs[i])
}

/// Every field of the sequence has a field number in `1 .. 2^29`.
pub open spec fn tags_valid(fs: Seq<WireFieldView>) -> bool {
    forall|i: int| 0 <= i < fs.len() ==> 1 <= #[trigger] fs[i].tag < 0x2000_0000
}

/// Folding over two sequences of fields is folding over the first, then the second.
pub proof fn lemma_fold_append<A>(
    fs1: Seq<WireFieldView>,
    fs2: Seq<WireFieldView>,
    acc: A,
    step: spec_fn(A, WireFieldView) -> Option<A>,
)
    ensures
        fold_fields(fs1 + fs2, acc, step) == match fold_fields(fs1, acc, step) {
            None => None,
            Some(a) => fold_fields(fs2, a, step),
        },
    decreases fs1.len(),
{
    if fs1.len() == 0 {
        assert(fs1 + fs2 =~= fs2);
    } else {
        assert((fs1 + fs2)[0] == fs1[0]);
        assert((fs1 + fs2).drop_first() =~= fs1.drop_first() + fs2);
        match step(acc, fs1[0]) {
            None => {},
            Some(a) => {
                lemma_fold_append(fs1.drop_first(), fs2, a, step);
            },
        }
    }
}

/// Folding over a field that may be absent.
pub proof fn lemma_fold_field_if<A>(
    c: bool,
    f: WireFieldView,
    acc: A,
    step: spec_fn(A, WireFieldView) -> Option<A>,
)
    ensures
        fold_fields(field_if(c, f), acc, step) == if c {
            step(acc, f)
        } else {
            Some(acc)
        },
{
    if c {
        assert(seq![f].drop_first() =~= Seq::<WireFieldView>::empty());
        match step(acc, f) {
            None => {},
            Some(a) => {
                assert(fold_fields(Seq::<WireFieldView>::empty(), a, step) == Some(a));
            },
        }
    }
}

/// The bytes of two sequences of fields are the bytes of the first, then of the second.
pub proof fn lemma_fields_bytes_append(fs1: Seq<WireFieldView>, fs2: Seq<WireFieldView>)
    ensures
        fields_bytes(fs1 + fs2) == fields_bytes(fs1) + fields_bytes(fs2),
    decreases fs1.len(),
{
    if fs1.len() == 0 {
        assert(fs1 + fs2 =~= fs2);
        assert(fields_bytes(fs1) + fields_bytes(fs2) =~= fields_bytes(fs2));
    } else {
        assert((fs1 + fs2)[0] == fs1[0]);
        assert((fs1 + fs2).drop_first() =~= fs1.drop_first() + fs2);
        lemma_fields_bytes_append(fs1.drop_first(), fs2);
        assert(fields_bytes(fs1 + fs2) =~= fields_bytes(fs1) + fields_bytes(fs2));
    }
}

/// Fields with valid numbers whose bytes fit in 64 bits can all be carried.
pub proof fn lemma_fields_encodable(fs: Seq<WireFieldView>)
    requires
        tags_valid(fs),
        fields_bytes(fs).len() <= u64::MAX,
    ensures
        fields_encodable(fs),
    decreases fs.len(),
{
    if fs.len() > 0 {
        let tail = fs.drop_first();
        assert(1 <= fs[0].tag < 0x2000_0000);
        assert forall|i: int| 0 <= i < tail.len() implies 1 <= #[trigger] tail[i].tag
            < 0x2000_0000 by {
            assert(1 <= fs[i + 1].tag < 0x2000_0000);
        }
        lemma_fields_encodable(tail);
        assert forall|i: int| 0 <= i < fs.len() implies #[trigger] field_encodable(fs[i]) by {
            if i > 0 {
                assert(field_encodable(tail[i - 1]));
            }
        }
    }
}

// ---------------------------------------------------------------------------
// Reading back what was written
// ---------------------------------------------------------------------------

proof fn lemma_pow128_monotone(a: nat, b: nat)
    requires
        a <= b,
    ensures
        pow128(a) <= pow128(b),
        pow128(a) >= 1,
    decreases b,
{
    if a < b {
        lemma_pow128_monotone(a, (b - 1) as nat);
    } else if a > 0 {
        lemma_pow128_monotone((a - 1) as nat, (a - 1) as nat);
    }
}

proof fn lemma_pow128_values()
    ensures
        pow128(9) == 0x8000_0000_0000_0000,
        pow128(10) == 0x40_0000_0000_0000_0000,
{
    reveal_with_fuel(pow128, 11);
}

proof fn lemma_varint_len(v: nat, k: nat)
    requires
        k >= 1,
        v < pow128(k),
    ensures
        1 <= varint(v).len() <= k,
    decreases v,
{
    if v >= 128 {
        lemma_pow128_monotone(0, (k - 1) as nat);
        assert(k >= 2) by {
            if k == 1 {
                assert(pow128(1) == 128 * pow128(0));
            }
        }
        assert(v / 128 < pow128((k - 1) as nat));
        lemma_varint_len(v / 128, (k - 1) as nat);
    }
}

/// A varint of a 64-bit value takes one to ten bytes.
pub proof fn lemma_varint_u64_len(v: u64)
    ensures
        1 <= varint(v as nat).len() <= 10,
{
    lemma_pow128_values();
    lemma_varint_len(v as nat, 10);
}

proof fn lemma_varint_at_roundtrip(pre: Seq<u8>, v: nat, rest: Seq<u8>, k: nat)
    requires
        varint(v).len() <= k,
    ensures
        varint_at(pre + varint(v) + rest, pre.len() as int, k) == Some(
            (v, (pre.len() + varint(v).len()) as int),
        ),
    decreases v,
{
    let d = pre + varint(v) + rest;
    let p = pre.len() as int;
    if v < 128 {
        assert(d[p] == v as u8);
    } else {
        let b = (v % 128 + 128) as u8;
        assert(d[p] == b);
        assert(d =~= (pre + seq![b]) + varint(v / 128) + rest);
        lemma_varint_at_roundtrip(pre + seq![b], v / 128, rest, (k - 1) as nat);
        assert(v == v % 128 + 128 * (v / 128));
    }
}

/// Reading a written varint of a 64-bit value gives the value, whatever surrounds it.
pub proof fn lemma_read_varint_roundtrip(pre: Seq<u8>, v: u64, rest: Seq<u8>)
    ensures
        read_varint(pre + varint(v as nat) + rest, pre.len() as int) == Some(
            (v, (pre.len() + varint(v as nat).len()) as int),
        ),
{
    lemma_varint_u64_len(v);
    lemma_varint_at_roundtrip(pre, v as nat, rest, 10);
}

proof fn lemma_field_roundtrip(pre: Seq<u8>, f: WireFieldView, rest: Seq<u8>)
    requires
        field_encodable(f),
    ensures
        read_field(pre + field_bytes(f) + rest, pre.len() as int) == Some(
            (f, (pre.len() + field_bytes(f).len()) as int),
        ),
{
    let key = (f.tag * 8 + wire_type(f.value)) as nat;
    let kb = varint(key);
    let d = pre + field_bytes(f) + rest;
    let p = pre.len() as int;
    assert(key <= u32::MAX);
    assert(d =~= pre + kb + ((field_bytes(f).subrange(kb.len() as int, field_bytes(f).len() as int)) + rest));
    lemma_read_varint_roundtrip(pre, key as u64, field_bytes(f).subrange(kb.len() as int, field_bytes(f).len() as int) + rest);
    assert(key % 8 == wire_type(f.value));
    assert(key / 8 == f.tag);
    let q = p + kb.len();
    match f.value {
        WireValueView::Varint(v) => {
            assert(d =~= (pre + kb) + varint(v as nat) + rest);
            lemma_read_varint_roundtrip(pre + kb, v, rest);
        },
        WireValueView::Fixed64 => {},
        WireValueView::Len(b) => {
            let n = b.len();
            assert(d =~= (pre + kb) + varint(n) + (b + rest));
            lemma_read_varint_roundtrip(pre + kb, n as u64, b + rest);
            let r = q + varint(n).len();
            assert(d.subrange(r, r + n) =~= b);
        },
        WireValueView::Fixed32 => {},
    }
}

/// Reading written fields gives the same fields: the wire format's tokens come back as
/// they were written.
pub proof fn lemma_fields_roundtrip(pre: Seq<u8>, fs: Seq<WireFieldView>)
    requires
        forall|i: int| 0 <= i < fs.len() ==> #[trigger] field_encodable(fs[i]),
    ensures
        read_fields(pre + fields_bytes(fs), pre.len() as int) == Some(fs),
    decreases fs.len(),
{
    let d = pre + fields_bytes(fs);
    if fs.len() == 0 {
        assert(d =~= pre);
    } else {
        let f = fs[0];
        let tail = fs.drop_first();
        assert(field_encodable(fs[0]));
        assert forall|i: int| 0 <= i < tail.len() implies #[trigger] field_encodable(tail[i]) by {
            assert(field_encodable(fs[i + 1]));
        }
        assert(d =~= pre + field_bytes(f) + fields_bytes(tail));
        lemma_field_roundtrip(pre, f, fields_bytes(tail));
        lemma_varint_u64_len((f.tag * 8 + wire_type(f.value)) as u64);
        assert(d =~= (pre + field_bytes(f)) + fields_bytes(tail));
        lemma_fields_roundtrip(pre + field_bytes(f), tail);
        assert(seq![f] + tail =~= fs);
    }
}

proof fn lemma_varint_at_bound(d: Seq<u8>, p: int, k: nat)
    requires
        varint_at(d, p, k) is Some,
    ensures
        varint_at(d, p, k)->Some_0.0 < pow128(k),
        p < varint_at(d, p, k)->Some_0.1 <= p + k,
        varint_at(d, p, k)->Some_0.1 <= d.len(),
    decreases k,
{
    if d[p] >= 128 {
        lemma_varint_at_bound(d, p + 1, (k - 1) as nat);
    } else {
        lemma_pow128_monotone(0, (k - 1) as nat);
    }
}

proof fn lemma_read_field_advances(d: Seq<u8>, p: int)
    requires
        read_field(d, p) is Some,
    ensures
        p < read_field(d, p)->Some_0.1 <= d.len(),
{
    lemma_varint_at_bound(d, p, 10);
    let q = read_key(d, p)->Some_0.2;
    if read_key(d, p)->Some_0.1 == 0 || read_key(d, p)->Some_0.1 == 2 {
        lemma_varint_at_bound(d, q, 10);
    }
}

// ---------------------------------------------------------------------------
// Executable writing and reading
// ---------------------------------------------------------------------------

/// Appends the varint of `v`.
pub fn push_varint(buf: &mut Vec<u8>, v: u64)
    ensures
        final(buf)@ == old(buf)@ + varint(v as nat),
{
    let mut x = v;
    while x >= 128
        invariant
            buf@ + varint(x as nat) == old(buf)@ + varint(v as nat),
        decreases x,
    {
        let ghost before = buf@;
        buf.push((x % 128 + 128) as u8);
        proof {
            assert(varint(x as nat) == seq![(x % 128 + 128) as u8] + varint((x / 128) as nat));
            assert(before + varint(x as nat) =~= buf@ + varint((x / 128) as nat));
        }
        x = x / 128;
    }
    buf.push(x as u8);
    assert(buf@ =~= old(buf)@ + varint(v as nat));
}

/// Appends a varint field.
pub fn push_varint_field(buf: &mut Vec<u8>, tag: u32, v: u64)
    requires
        1 <= tag < 0x2000_0000,
    ensures
        final(buf)@ == old(buf)@ + field_bytes(varint_field(tag, v)),
{
    push_varint(buf, tag as u64 * 8);
    push_varint(buf, v);
    assert(buf@ =~= old(buf)@ + field_bytes(varint_field(tag, v)));
}

/// Appends a length-delimited field.
pub fn push_len_field(buf: &mut Vec<u8>, tag: u32, b: &[u8])
    requires
        1 <= tag < 0x2000_0000,
    ensures
        final(buf)@ == old(buf)@ + field_bytes(len_field(tag, b@)),
{
    push_varint(buf, tag as u64 * 8 + 2);
    push_varint(buf, b.len() as u64);
    push_bytes(buf, b);
    assert(buf@ =~= old(buf)@ + field_bytes(len_field(tag, b@)));
}

fn varint_at_exec(data: &[u8], p: usize, budget: usize) -> (r: Option<(u128, usize)>)
    requires
        budget <= 10,
    ensures
        match varint_at(data@, p as int, budget as nat) {
            Some((v, q)) => r matches Some((v2, q2)) && v2 == v && q2 == q,
            None => r is None,
        },
    decreases budget,
{
    if budget == 0 || p >= data.len() {
        return None;
    }
    let b = data[p];
    if b < 128 {
        return Some((b as u128, p + 1));
    }
    match varint_at_exec(data, p + 1, budget - 1) {
        None => None,
        Some((r, q)) => {
            proof {
                lemma_varint_at_bound(data@, p + 1, (budget - 1) as nat);
                lemma_pow128_monotone((budget - 1) as nat, 9);
                lemma_pow128_values();
            }
            Some(((b - 128) as u128 + 128 * r, q))
        },
    }
}

/// Reads a varint at `p`.
pub fn read_varint_exec(data: &[u8], p: usize) -> (r: Option<(u64, usize)>)
    ensures
        match read_varint(data@, p as int) {
            Some((v, q)) => r matches Some((v2, q2)) && v2 == v && q2 == q,
            None => r is None,
        },
{
    match varint_at_exec(data, p, 10) {
        None => None,
        Some((v, q)) => {
            if v <= 0xffff_ffff_ffff_ffff {
                Some((v as u64, q))
            } else {
                None
            }
        },
    }
}

fn read_key_exec(data: &[u8], p: usize) -> (r: Option<(u32, u8, usize)>)
    ensures
        match read_key(data@, p as int) {
            Some((t, w, q)) => r matches Some((t2, w2, q2)) && t2 == t && w2 == w && q2 == q,
            None => r is None,
        },
{
    match read_varint_exec(data, p) {
        None => None,
        Some((k, q)) => {
            if k > 0xffff_ffff || k % 8 > 5 || k / 8 < 1 {
                None
            } else {
                Some(((k / 8) as u32, (k % 8) as u8, q))
            }
        },
    }
}

fn read_field_exec(data: &[u8], p: usize) -> (r: Option<(WireField, usize)>)
    ensures
        match read_field(data@, p as int) {
            Some((f, q)) => r matches Some((f2, q2)) && f2@ == f && q2 == q,
            None => r is None,
        },
{
    let (tag, wt, q) = match read_key_exec(data, p) {
        None => return None,
        Some(k) => k,
    };
    proof {
        lemma_varint_at_bound(data@, p as int, 10);
    }
    if wt == 0 {
        match read_varint_exec(data, q) {
            None => None,
            Some((v, r)) => Some((WireField { tag, value: WireValue::Varint(v) }, r)),
        }
    } else if wt == 1 {
        if data.len() - q >= 8 {
            Some((WireField { tag, value: WireValue::Fixed64 }, q + 8))
        } else {
            None
        }
    } else if wt == 2 {
        match read_varint_exec(data, q) {
            None => None,
            Some((n, r)) => {
                proof {
                    lemma_varint_at_bound(data@, q as int, 10);
                }
                if n <= (data.len() - r) as u64 {
                    let b = copy_range(data, r, n as usize);
                    Some((WireField { tag, value: WireValue::Len(b) }, r + n as usize))
                } else {
                    None
                }
            },
        }
    } else if wt == 5 {
        if data.len() - q >= 4 {
            Some((WireField { tag, value: WireValue::Fixed32 }, q + 4))
        } else {
            None
        }
    } else {
        None
    }
}

/// Reads the fields of a message: all of `data`, field by field.
pub fn read_fields_exec(data: &[u8]) -> (r: Option<Vec<WireField>>)
    ensures
        match read_fields(data@, 0) {
            Some(fs) => r matches Some(v) && field_views(v@) == fs,
            None => r is None,
        },
{
    let mut fields: Vec<WireField> = Vec::new();
    let mut pos: usize = 0;
    assert(field_views(fields@) =~= seq![]);
    while pos < data.len()
        invariant
            pos <= data@.len(),
            read_fields(data@, 0) == match read_fields(data@, pos as int) {
                Some(fs) => Some(field_views(fields@) + fs),
                None => None::<Seq<WireFieldView>>,
            },
        decreases data@.len() - pos,
    {
        match read_field_exec(data, pos) {
            None => {
                return None;
            },
            Some((f, q)) => {
                proof {
                    lemma_read_field_advances(data@, pos as int);
                }
                let ghost before = fields@;
                fields.push(f);
                proof {
                    assert(field_views(fields@) =~= field_views(before).push(f@));
                    match read_fields(data@, q as int) {
                        Some(fs) => {
                            assert(field_views(before) + (seq![f@] + fs) =~= field_views(fields@)
                                + fs);
                        },
                        None => {},
                    }
                }
                pos = q;
            },
        }
    }
    assert(field_views(fields@) + seq![] =~= field_views(fields@));
    Some(fields)
}

} // verus!
