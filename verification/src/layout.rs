//! Target types and their memory layout.
use vstd::prelude::*;
use vstd::arithmetic::power2::pow2;
use vstd::arithmetic::power2::lemma_pow2_unfold;
use vstd::arithmetic::power2::lemma2_to64;

verus! {

/// A type of the target IR, as held at run time.
#[derive(Debug, PartialEq, Eq)]
pub enum TargetType {
    /// An integer of the given width in bits.
    Int(u32),
    /// An aggregate whose fields lie one after the other.
    Struct(Vec<TargetType>),
    /// A tagged union: a discriminant of `tag_bits` bits, then a payload
    /// that every variant's field list shares.
    Union { tag_bits: u32, variants: Vec<Vec<TargetType>> },
    /// A pointer to a function with these parameters and results.
    FuncPtr { params: Vec<TargetType>, results: Vec<TargetType> },
}

/// The mathematical model of a `TargetType`.
pub enum Layout {
    Int(nat),
    Struct(Seq<Layout>),
    Union(nat, Seq<Seq<Layout>>),
    FuncPtr(Seq<Layout>, Seq<Layout>),
}

/// The model of a row of target types.
pub open spec fn row_view(r: Vec<TargetType>) -> Seq<Layout>
    decreases r, 1int,
{
    Seq::new(r.len() as nat, |i: int| if 0 <= i < r.len() { r[i]@ } else { Layout::Int(0) })
}

/// The model of a list of rows of target types.
pub open spec fn rows_view(rs: Vec<Vec<TargetType>>) -> Seq<Seq<Layout>>
    decreases rs, 2int,
{
    Seq::new(rs.len() as nat, |i: int| if 0 <= i < rs.len() { row_view(rs[i]) } else { Seq::empty() })
}

impl View for TargetType {
    type V = Layout;

    open spec fn view(&self) -> Layout
        decreases self, 0int,
    {
        match self {
            TargetType::Int(bits) => Layout::Int(*bits as nat),
            TargetType::Struct(fields) => Layout::Struct(row_view(*fields)),
            TargetType::Union { tag_bits, variants } => Layout::Union(*tag_bits as nat, rows_view(*variants)),
            TargetType::FuncPtr { params, results } => Layout::FuncPtr(row_view(*params), row_view(*results)),
        }
    }
}

pub proof fn lemma_row_view(r: Vec<TargetType>)
    ensures
        row_view(r).len() == r.len(),
        forall|i: int| 0 <= i < r.len() ==> #[trigger] row_view(r)[i] == r[i]@,
{
}

pub proof fn lemma_rows_view(rs: Vec<Vec<TargetType>>)
    ensures
        rows_view(rs).len() == rs.len(),
        forall|i: int| 0 <= i < rs.len() ==> #[trigger] rows_view(rs)[i] == row_view(rs[i]),
{
}

/// Appends a type to a row.
pub fn row_push(row: &mut Vec<TargetType>, t: TargetType)
    ensures
        final(row)@ == old(row)@.push(t),
        row_view(*final(row)) == row_view(*old(row)).push(t@),
{
    row.push(t);
    proof {
        lemma_row_view(*row);
        lemma_row_view(*old(row));
        assert(row_view(*row) =~= row_view(*old(row)).push(t@));
    }
}

/// Appends a row to a list of rows.
pub fn rows_push(rows: &mut Vec<Vec<TargetType>>, r: Vec<TargetType>)
    ensures
        final(rows)@ == old(rows)@.push(r),
        rows_view(*final(rows)) == rows_view(*old(rows)).push(row_view(r)),
{
    rows.push(r);
    proof {
        lemma_rows_view(*rows);
        lemma_rows_view(*old(rows));
        assert(rows_view(*rows) =~= rows_view(*old(rows)).push(row_view(r)));
    }
}

/// The empty row.
pub fn row_new() -> (r: Vec<TargetType>)
    ensures
        r@.len() == 0,
        row_view(r) == Seq::<Layout>::empty(),
{
    let r: Vec<TargetType> = Vec::new();
    assert(row_view(r) =~= Seq::<Layout>::empty());
    r
}

/// The empty list of rows.
pub fn rows_new() -> (r: Vec<Vec<TargetType>>)
    ensures
        r@.len() == 0,
        rows_view(r) == Seq::<Seq<Layout>>::empty(),
{
    let r: Vec<Vec<TargetType>> = Vec::new();
    assert(rows_view(r) =~= Seq::<Seq<Layout>>::empty());
    r
}

/// Whether two rows of target types are alike, field by field.
#[verifier::loop_isolation(false)]
pub fn row_same(a: &Vec<TargetType>, b: &Vec<TargetType>) -> (r: bool)
    ensures
        r == (row_view(*a) == row_view(*b)),
    decreases a, 1int,
{
    proof {
        lemma_row_view(*a);
        lemma_row_view(*b);
    }
    if a.len() != b.len() {
        return false;
    }
    let mut i: usize = 0;
    while i < a.len()
        invariant
            i <= a.len(),
            forall|k: int| 0 <= k < i ==> a[k]@ == b[k]@,
        decreases a.len() - i,
    {
        if !a[i].same(&b[i]) {
            assert(row_view(*a)[i as int] != row_view(*b)[i as int]);
            return false;
        }
        i += 1;
    }
    assert(row_view(*a) =~= row_view(*b));
    true
}

/// Whether two lists of rows are alike.
#[verifier::loop_isolation(false)]
pub fn rows_same(a: &Vec<Vec<TargetType>>, b: &Vec<Vec<TargetType>>) -> (r: bool)
    ensures
        r == (rows_view(*a) == rows_view(*b)),
    decreases a, 2int,
{
    proof {
        lemma_rows_view(*a);
        lemma_rows_view(*b);
    }
    if a.len() != b.len() {
        return false;
    }
    let mut i: usize = 0;
    while i < a.len()
        invariant
            i <= a.len(),
            forall|k: int| 0 <= k < i ==> row_view(a[k]) == row_view(b[k]),
        decreases a.len() - i,
    {
        if !row_same(&a[i], &b[i]) {
            assert(rows_view(*a)[i as int] != rows_view(*b)[i as int]);
            return false;
        }
        i += 1;
    }
    assert(rows_view(*a) =~= rows_view(*b));
    true
}

/// A copy of a row of target types.
#[verifier::loop_isolation(false)]
pub fn row_duplicate(a: &Vec<TargetType>) -> (r: Vec<TargetType>)
    ensures
        row_view(r) == row_view(*a),
    decreases a, 1int,
{
    let mut out: Vec<TargetType> = Vec::new();
    let mut i: usize = 0;
    while i < a.len()
        invariant
            i <= a.len(),
            out.len() == i,
            forall|k: int| 0 <= k < i ==> out[k]@ == a[k]@,
        decreases a.len() - i,
    {
        out.push(a[i].duplicate());
        i += 1;
    }
    proof {
        lemma_row_view(*a);
        lemma_row_view(out);
        assert(row_view(out) =~= row_view(*a));
    }
    out
}

/// A copy of a list of rows.
#[verifier::loop_isolation(false)]
pub fn rows_duplicate(a: &Vec<Vec<TargetType>>) -> (r: Vec<Vec<TargetType>>)
    ensures
        rows_view(r) == rows_view(*a),
    decreases a, 2int,
{
    let mut out: Vec<Vec<TargetType>> = Vec::new();
    let mut i: usize = 0;
    while i < a.len()
        invariant
            i <= a.len(),
            out.len() == i,
            forall|k: int| 0 <= k < i ==> row_view(out[k]) == row_view(a[k]),
        decreases a.len() - i,
    {
        out.push(row_duplicate(&a[i]));
        i += 1;
    }
    proof {
        lemma_rows_view(*a);
        lemma_rows_view(out);
        assert(rows_view(out) =~= rows_view(*a));
    }
    out
}

impl TargetType {
    /// Structural equality: `true` exactly when both have the same model.
    pub fn same(&self, other: &TargetType) -> (r: bool)
        ensures
            r == (self@ == other@),
        decreases self, 0int,
    {
        match (self, other) {
            (TargetType::Int(x), TargetType::Int(y)) => *x == *y,
            (TargetType::Struct(x), TargetType::Struct(y)) => row_same(x, y),
            (
                TargetType::Union { tag_bits: tx, variants: vx },
                TargetType::Union { tag_bits: ty, variants: vy },
            ) => *tx == *ty && rows_same(vx, vy),
            (
                TargetType::FuncPtr { params: px, results: rx },
                TargetType::FuncPtr { params: py, results: ry },
            ) => row_same(px, py) && row_same(rx, ry),
            _ => false,
        }
    }

    /// A deep copy with the same model.
    pub fn duplicate(&self) -> (r: TargetType)
        ensures
            r@ == self@,
        decreases self, 0int,
    {
        match self {
            TargetType::Int(bits) => TargetType::Int(*bits),
            TargetType::Struct(fields) => TargetType::Struct(row_duplicate(fields)),
            TargetType::Union { tag_bits, variants } => TargetType::Union {
                tag_bits: *tag_bits,
                variants: rows_duplicate(variants),
            },
            TargetType::FuncPtr { params, results } => TargetType::FuncPtr {
                params: row_duplicate(params),
                results: row_duplicate(results),
            },
        }
    }
}

/// The width in bits of the smallest discriminant that tells `n`
/// alternatives apart: the least `w >= 1` with `2^w >= n`.
pub open spec fn tag_width(n: nat) -> nat
    decreases n,
{
    if n <= 2 {
        1
    } else {
        1 + tag_width((n / 2 + n % 2) as nat)
    }
}

/// `tag_width(n)` bits cover `n` alternatives, and no smaller width of at
/// least one bit does.
pub proof fn lemma_tag_width_is_least(n: nat)
    ensures
        tag_width(n) >= 1,
        pow2(tag_width(n)) >= n,
        tag_width(n) > 1 ==> pow2((tag_width(n) - 1) as nat) < n,
        tag_width(n) <= 64 || n > 0x1_0000_0000_0000_0000,
    decreases n,
{
    lemma2_to64();
    if n <= 2 {
    } else {
        let h = (n / 2 + n % 2) as nat;
        lemma_tag_width_is_least(h);
        let w = tag_width(h);
        lemma_pow2_unfold(w + 1);
        if w > 1 {
            lemma_pow2_unfold(w);
        }
        if w >= 64 && n <= 0x1_0000_0000_0000_0000 {
            lemma_pow2_grows(63, (w - 1) as nat);
        }
    }
}

/// `pow2` never falls as its exponent grows.
pub proof fn lemma_pow2_grows(a: nat, b: nat)
    requires
        a <= b,
    ensures
        pow2(a) <= pow2(b),
    decreases b - a,
{
    if a < b {
        lemma_pow2_grows(a, (b - 1) as nat);
        lemma_pow2_unfold(b);
    }
}

/// Computes `tag_width`.
pub fn discriminant_bits(n: usize) -> (w: u32)
    ensures
        w == tag_width(n as nat),
        1 <= w <= 64,
    decreases n,
{
    proof {
        lemma_tag_width_is_least(n as nat);
    }
    if n <= 2 {
        1
    } else {
        let h = n / 2 + n % 2;
        proof {
            lemma_tag_width_is_least(h as nat);
            lemma2_to64();
            if tag_width(h as nat) >= 64 {
                lemma_pow2_grows(63, (tag_width(h as nat) - 1) as nat);
            }
        }
        1 + discriminant_bits(h)
    }
}

/// The bytes that an integer of `bits` bits takes.
pub open spec fn int_bytes(bits: nat) -> nat {
    (bits + 7) / 8
}

/// The size in bytes of a row laid out field after field.
pub open spec fn row_size(fields: Seq<Layout>) -> nat
    decreases fields, 1int,
{
    if fields.len() == 0 {
        0
    } else {
        row_size(fields.drop_last()) + size_of(fields.last())
    }
}

/// The size in bytes of the payload that the variants share: the largest
/// of their row sizes.
pub open spec fn payload_size(variants: Seq<Seq<Layout>>) -> nat
    decreases variants, 2int,
{
    if variants.len() == 0 {
        0
    } else {
        let rest = payload_size(variants.drop_last());
        let last = row_size(variants.last());
        if last > rest {
            last
        } else {
            rest
        }
    }
}

/// The size in bytes of a value of the given layout.
pub open spec fn size_of(l: Layout) -> nat
    decreases l, 0int,
{
    match l {
        Layout::Int(bits) => int_bytes(bits),
        Layout::Struct(fields) => row_size(fields),
        Layout::Union(tag_bits, variants) => int_bytes(tag_bits) + payload_size(variants),
        Layout::FuncPtr(_, _) => 8,
    }
}

/// The byte offset of field `i` within a row: the size of the fields
/// before it.
pub open spec fn field_offset(fields: Seq<Layout>, i: int) -> nat {
    row_size(fields.take(i))
}

/// Every field of a row ends within the row.
pub proof fn lemma_field_fits(fields: Seq<Layout>, i: int)
    requires
        0 <= i < fields.len(),
    ensures
        field_offset(fields, i) + size_of(fields[i]) <= row_size(fields),
    decreases fields.len(),
{
    if i == fields.len() - 1 {
        assert(fields.take(i) =~= fields.drop_last());
    } else {
        lemma_field_fits(fields.drop_last(), i);
        assert(fields.drop_last().take(i) =~= fields.take(i));
    }
}

/// The payload holds every variant, and is no larger than the largest.
pub proof fn lemma_payload_is_max(variants: Seq<Seq<Layout>>)
    ensures
        forall|v: int| 0 <= v < variants.len() ==> row_size(#[trigger] variants[v]) <= payload_size(variants),
        variants.len() > 0 ==> exists|v: int| 0 <= v < variants.len() && row_size(#[trigger] variants[v]) == payload_size(variants),
        variants.len() == 0 ==> payload_size(variants) == 0,
    decreases variants.len(),
{
    if variants.len() > 0 {
        let rest = variants.drop_last();
        lemma_payload_is_max(rest);
        assert forall|v: int| 0 <= v < variants.len() implies row_size(#[trigger] variants[v]) <= payload_size(variants) by {
            if v < rest.len() {
                assert(rest[v] == variants[v]);
            }
        }
        if row_size(variants.last()) > payload_size(rest) || rest.len() == 0 {
            assert(row_size(variants[variants.len() - 1]) == payload_size(variants));
        } else {
            let v = choose|v: int| 0 <= v < rest.len() && row_size(#[trigger] rest[v]) == payload_size(rest);
            assert(rest[v] == variants[v]);
        }
    }
}

/// Every field of every variant lies within the shared payload.
pub proof fn law_variant_fields_fit_the_payload(variants: Seq<Seq<Layout>>, v: int, i: int)
    requires
        0 <= v < variants.len(),
        0 <= i < variants[v].len(),
    ensures
        field_offset(variants[v], i) + size_of(variants[v][i]) <= payload_size(variants),
{
    lemma_field_fits(variants[v], i);
    lemma_payload_is_max(variants);
}

/// The sizes of the rows `rows.take(i)` and `rows.take(i + 1)` differ by
/// the size of field `i`.
pub proof fn lemma_row_size_step(fields: Seq<Layout>, i: int)
    requires
        0 <= i < fields.len(),
    ensures
        row_size(fields.take(i + 1)) == row_size(fields.take(i)) + size_of(fields[i]),
{
    assert(fields.take(i + 1).drop_last() =~= fields.take(i));
}

/// The size in bytes of a row, or `None` where it is not below `2^64`.
#[verifier::loop_isolation(false)]
pub fn row_size_in_bytes(row: &Vec<TargetType>) -> (r: Option<u64>)
    ensures
        match r {
            Some(s) => s == row_size(row_view(*row)),
            None => row_size(row_view(*row)) > u64::MAX,
        },
    decreases row, 1nat,
{
    proof {
        lemma_row_view(*row);
    }
    let ghost fields = row_view(*row);
    let mut total: u64 = 0;
    let mut i: usize = 0;
    assert(fields.take(0) =~= Seq::empty());
    while i < row.len()
        invariant
            i <= row.len(),
            total == row_size(fields.take(i as int)),
        decreases row.len() - i,
    {
        proof {
            lemma_row_size_step(fields, i as int);
            lemma_row_size_grows(fields, i as int + 1);
        }
        let s = match row[i].size_in_bytes() {
            None => {
                return None;
            },
            Some(s) => s,
        };
        total = match total.checked_add(s) {
            None => {
                return None;
            },
            Some(t) => t,
        };
        i += 1;
    }
    assert(fields.take(row.len() as int) =~= fields);
    Some(total)
}

/// A row is at least as large as each of its beginnings.
pub proof fn lemma_row_size_grows(fields: Seq<Layout>, i: int)
    requires
        0 <= i <= fields.len(),
    ensures
        row_size(fields.take(i)) <= row_size(fields),
    decreases fields.len() - i,
{
    if i < fields.len() {
        lemma_row_size_step(fields, i);
        lemma_row_size_grows(fields, i + 1);
    } else {
        assert(fields.take(i) =~= fields);
    }
}

/// The payload of the variants `variants.take(i + 1)` is the larger of
/// the payload of `variants.take(i)` and variant `i`.
pub proof fn lemma_payload_step(variants: Seq<Seq<Layout>>, i: int)
    requires
        0 <= i < variants.len(),
    ensures
        payload_size(variants.take(i + 1)) == (if row_size(variants[i]) > payload_size(variants.take(i)) {
            row_size(variants[i])
        } else {
            payload_size(variants.take(i))
        }),
{
    assert(variants.take(i + 1).drop_last() =~= variants.take(i));
}

/// A payload is at least as large as the payload of each beginning of
/// its variants.
pub proof fn lemma_payload_grows(variants: Seq<Seq<Layout>>, i: int)
    requires
        0 <= i <= variants.len(),
    ensures
        payload_size(variants.take(i)) <= payload_size(variants),
    decreases variants.len() - i,
{
    if i < variants.len() {
        lemma_payload_step(variants, i);
        lemma_payload_grows(variants, i + 1);
    } else {
        assert(variants.take(i) =~= variants);
    }
}

/// The size in bytes of the payload that the variants share, or `None`
/// where it is not below `2^64`.
#[verifier::loop_isolation(false)]
pub fn payload_size_in_bytes(variants: &Vec<Vec<TargetType>>) -> (r: Option<u64>)
    ensures
        match r {
            Some(s) => s == payload_size(rows_view(*variants)),
            None => payload_size(rows_view(*variants)) > u64::MAX,
        },
    decreases variants, 1nat,
{
    proof {
        lemma_rows_view(*variants);
    }
    let ghost rows = rows_view(*variants);
    let mut largest: u64 = 0;
    let mut i: usize = 0;
    assert(rows.take(0) =~= Seq::empty());
    while i < variants.len()
        invariant
            i <= variants.len(),
            largest == payload_size(rows.take(i as int)),
        decreases variants.len() - i,
    {
        proof {
            lemma_payload_step(rows, i as int);
            lemma_payload_grows(rows, i as int + 1);
        }
        let s = match row_size_in_bytes(&variants[i]) {
            None => {
                return None;
            },
            Some(s) => s,
        };
        if s > largest {
            largest = s;
        }
        i += 1;
    }
    assert(rows.take(variants.len() as int) =~= rows);
    Some(largest)
}

/// The byte offset of each field of a row, or `None` where the row is
/// not smaller than `2^64` bytes.
pub fn row_offsets(row: &Vec<TargetType>) -> (r: Option<Vec<u64>>)
    ensures
        match r {
            Some(offsets) => offsets@.len() == row@.len() && forall|i: int|
                0 <= i < row@.len() ==> (#[trigger] offsets@[i]) == field_offset(row_view(*row), i),
            None => row_size(row_view(*row)) > u64::MAX,
        },
{
    proof {
        lemma_row_view(*row);
    }
    let ghost fields = row_view(*row);
    let mut offsets: Vec<u64> = Vec::new();
    let mut total: u64 = 0;
    let mut i: usize = 0;
    assert(fields.take(0) =~= Seq::empty());
    while i < row.len()
        invariant
            i <= row.len(),
            fields == row_view(*row),
            fields.len() == row@.len(),
            forall|k: int| 0 <= k < row@.len() ==> #[trigger] fields[k] == row@[k]@,
            total == row_size(fields.take(i as int)),
            offsets@.len() == i,
            forall|k: int| 0 <= k < i ==> (#[trigger] offsets@[k]) == field_offset(fields, k),
        decreases row.len() - i,
    {
        proof {
            lemma_row_size_step(fields, i as int);
            lemma_row_size_grows(fields, i as int + 1);
        }
        offsets.push(total);
        let s = match row[i].size_in_bytes() {
            None => {
                return None;
            },
            Some(s) => s,
        };
        total = match total.checked_add(s) {
            None => {
                return None;
            },
            Some(t) => t,
        };
        i += 1;
    }
    Some(offsets)
}

impl TargetType {
    /// The size in bytes of a value of the type, or `None` where it is
    /// not below `2^64`.
    pub fn size_in_bytes(&self) -> (r: Option<u64>)
        ensures
            match r {
                Some(s) => s == size_of(self@),
                None => size_of(self@) > u64::MAX,
            },
        decreases self, 0nat,
    {
        match self {
            TargetType::Int(bits) => Some((*bits as u64 + 7) / 8),
            TargetType::Struct(fields) => row_size_in_bytes(fields),
            TargetType::Union { tag_bits, variants } => {
                let tag = (*tag_bits as u64 + 7) / 8;
                match payload_size_in_bytes(variants) {
                    None => None,
                    Some(p) => tag.checked_add(p),
                }
            },
            TargetType::FuncPtr { .. } => Some(8),
        }
    }
}

} // verus!
