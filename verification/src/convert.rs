//! The type converter: from graph-IR types to target layouts.
use vstd::prelude::*;
use crate::layout::Layout;
use crate::layout::TargetType;
use crate::layout::row_view;
use crate::layout::rows_view;
use crate::layout::row_push;
use crate::layout::rows_push;
use crate::layout::row_new;
use crate::layout::rows_new;
use crate::layout::tag_width;
use crate::layout::discriminant_bits;
use crate::types::Type;
use crate::types::TypeView;
use crate::types::type_row_view;
use crate::types::type_rows_view;
use crate::types::lemma_type_row_view;
use crate::types::lemma_type_rows_view;
use crate::types::all_rows_empty;
use crate::extension::ExtensionLowering;
use crate::extension::ExtensionOpRegistry;
use crate::extension::Registration;
use crate::extension::find;
use crate::error::EmitError;
use crate::error::EmitErrorView;

verus! {

/// The layouts of the fields of `row` from position `i` on, appended to
/// `acc`; the first field without a layout decides the error.
pub open spec fn convert_row_from<L: ExtensionLowering>(
    table: Seq<Registration<L>>,
    row: Seq<TypeView>,
    i: nat,
    acc: Seq<Layout>,
) -> Result<Seq<Layout>, EmitErrorView>
    decreases row, row.len() - i,
{
    if i >= row.len() {
        Ok(acc)
    } else {
        match convert_type(table, row[i as int]) {
            Err(e) => Err(e),
            Ok(l) => convert_row_from(table, row, i + 1, acc.push(l)),
        }
    }
}

/// The layouts of the rows of `rows` from position `i` on, appended to
/// `acc`.
pub open spec fn convert_rows_from<L: ExtensionLowering>(
    table: Seq<Registration<L>>,
    rows: Seq<Seq<TypeView>>,
    i: nat,
    acc: Seq<Seq<Layout>>,
) -> Result<Seq<Seq<Layout>>, EmitErrorView>
    decreases rows, rows.len() - i,
{
    if i >= rows.len() {
        Ok(acc)
    } else {
        match convert_row(table, rows[i as int]) {
            Err(e) => Err(e),
            Ok(r) => convert_rows_from(table, rows, i + 1, acc.push(r)),
        }
    }
}

/// The layouts of a row of types, in order.
pub open spec fn convert_row<L: ExtensionLowering>(table: Seq<Registration<L>>, row: Seq<TypeView>) -> Result<
    Seq<Layout>,
    EmitErrorView,
>
    decreases row, row.len() + 1,
{
    convert_row_from(table, row, 0, Seq::empty())
}

/// The layout of a type under the type lowerings of `table`.
///
/// A tuple becomes an aggregate of its fields' layouts, in order. A sum of
/// `n` variants becomes a tagged union whose discriminant has
/// `tag_width(n)` bits; where no variant has a field it is that
/// discriminant alone. A function type becomes a function pointer. An
/// opaque type has the layout that its extension's registered lowering
/// gives it.
pub open spec fn convert_type<L: ExtensionLowering>(table: Seq<Registration<L>>, t: TypeView) -> Result<
    Layout,
    EmitErrorView,
>
    decreases t, 0nat,
{
    match t {
        TypeView::Extension(c) => match find(table, c.extension, c.name) {
            None => Err(EmitErrorView::UnsupportedType(c.extension, c.name)),
            Some(i) => match table[i].lowering.type_layout(c) {
                None => Err(EmitErrorView::UnsupportedType(c.extension, c.name)),
                Some(l) => Ok(l),
            },
        },
        TypeView::Tuple(fields) => match convert_row(table, fields) {
            Err(e) => Err(e),
            Ok(ls) => Ok(Layout::Struct(ls)),
        },
        TypeView::Sum(variants) => if all_rows_empty(variants) {
            Ok(Layout::Int(tag_width(variants.len())))
        } else {
            match convert_rows_from(table, variants, 0, Seq::empty()) {
                Err(e) => Err(e),
                Ok(vs) => Ok(Layout::Union(tag_width(variants.len()), vs)),
            }
        },
        TypeView::Function(input, output) => match convert_row(table, input) {
            Err(e) => Err(e),
            Ok(ps) => match convert_row(table, output) {
                Err(e) => Err(e),
                Ok(rs) => Ok(Layout::FuncPtr(ps, rs)),
            },
        },
    }
}

/// The model of the result of a conversion.
pub open spec fn layout_result(r: Result<TargetType, EmitError>) -> Result<Layout, EmitErrorView> {
    match r {
        Ok(t) => Ok(t@),
        Err(e) => Err(e@),
    }
}

/// The model of the result of the conversion of a row.
pub open spec fn row_result(r: Result<Vec<TargetType>, EmitError>) -> Result<Seq<Layout>, EmitErrorView> {
    match r {
        Ok(t) => Ok(row_view(t)),
        Err(e) => Err(e@),
    }
}

/// The model of the result of the conversion of a list of rows.
pub open spec fn rows_result(r: Result<Vec<Vec<TargetType>>, EmitError>) -> Result<
    Seq<Seq<Layout>>,
    EmitErrorView,
> {
    match r {
        Ok(t) => Ok(rows_view(t)),
        Err(e) => Err(e@),
    }
}

/// A row that converts has one layout for each field, that of the field.
pub proof fn lemma_convert_row_from<L: ExtensionLowering>(
    table: Seq<Registration<L>>,
    row: Seq<TypeView>,
    i: nat,
    acc: Seq<Layout>,
)
    requires
        i <= row.len(),
        acc.len() == i,
    ensures
        match convert_row_from(table, row, i, acc) {
            Ok(ls) => {
                &&& ls.len() == row.len()
                &&& forall|k: int| 0 <= k < i ==> ls[k] == acc[k]
                &&& forall|k: int| i <= k < row.len() ==> convert_type(table, row[k]) == Ok::<Layout, EmitErrorView>(#[trigger] ls[k])
            },
            Err(e) => exists|k: int| i <= k < row.len() && convert_type(table, #[trigger] row[k]) == Err::<Layout, EmitErrorView>(e),
        },
    decreases row.len() - i,
{
    if i < row.len() {
        match convert_type(table, row[i as int]) {
            Err(e) => {},
            Ok(l) => {
                lemma_convert_row_from(table, row, i + 1, acc.push(l));
            },
        }
    }
}

/// A sum is an integer exactly when none of its variants has a field;
/// then the integer has the width of the discriminant.
pub proof fn lemma_unit_sum_layout<L: ExtensionLowering>(table: Seq<Registration<L>>, rows: Seq<Seq<TypeView>>)
    ensures
        convert_type(table, TypeView::Sum(rows)) matches Ok(Layout::Int(bits)) ==> bits == tag_width(rows.len())
            && all_rows_empty(rows),
{
}

/// Whether the types of `row` from position `i` on hold no opaque type.
pub open spec fn row_plain(row: Seq<TypeView>, i: nat) -> bool
    decreases row, row.len() - i,
{
    i >= row.len() || (plain(row[i as int]) && row_plain(row, i + 1))
}

/// Whether the rows of `rows` from position `i` on hold no opaque type.
pub open spec fn rows_plain(rows: Seq<Seq<TypeView>>, i: nat) -> bool
    decreases rows, rows.len() - i,
{
    i >= rows.len() || (row_plain(rows[i as int], 0) && rows_plain(rows, i + 1))
}

/// Whether a type holds no opaque type of an extension.
pub open spec fn plain(t: TypeView) -> bool
    decreases t, 0nat,
{
    match t {
        TypeView::Extension(_) => false,
        TypeView::Tuple(fields) => row_plain(fields, 0),
        TypeView::Sum(variants) => rows_plain(variants, 0),
        TypeView::Function(input, output) => row_plain(input, 0) && row_plain(output, 0),
    }
}

/// Whether an error says that an extension type has no lowering.
pub open spec fn is_unsupported_type(e: EmitErrorView) -> bool {
    e is UnsupportedType
}

pub proof fn lemma_convert_row_total<L: ExtensionLowering>(
    table: Seq<Registration<L>>,
    row: Seq<TypeView>,
    i: nat,
    acc: Seq<Layout>,
)
    ensures
        row_plain(row, i) ==> convert_row_from(table, row, i, acc) is Ok,
        convert_row_from(table, row, i, acc) matches Err(e) ==> is_unsupported_type(e),
    decreases row, row.len() - i,
{
    if i < row.len() {
        law_conversion_is_total(table, row[i as int]);
        match convert_type(table, row[i as int]) {
            Err(e) => {},
            Ok(l) => {
                lemma_convert_row_total(table, row, i + 1, acc.push(l));
            },
        }
    }
}

pub proof fn lemma_convert_rows_total<L: ExtensionLowering>(
    table: Seq<Registration<L>>,
    rows: Seq<Seq<TypeView>>,
    i: nat,
    acc: Seq<Seq<Layout>>,
)
    ensures
        rows_plain(rows, i) ==> convert_rows_from(table, rows, i, acc) is Ok,
        convert_rows_from(table, rows, i, acc) matches Err(e) ==> is_unsupported_type(e),
    decreases rows, rows.len() - i,
{
    if i < rows.len() {
        lemma_convert_row_total(table, rows[i as int], 0, Seq::empty());
        match convert_row(table, rows[i as int]) {
            Err(e) => {},
            Ok(r) => {
                lemma_convert_rows_total(table, rows, i + 1, acc.push(r));
            },
        }
    }
}

/// Conversion is total on structure: a type that holds no opaque type of
/// an extension has a layout under every registry, and where a type has
/// none, the error names an extension type without a lowering.
pub proof fn law_conversion_is_total<L: ExtensionLowering>(table: Seq<Registration<L>>, t: TypeView)
    ensures
        plain(t) ==> convert_type(table, t) is Ok,
        convert_type(table, t) matches Err(e) ==> is_unsupported_type(e),
    decreases t, 0nat,
{
    match t {
        TypeView::Extension(c) => {},
        TypeView::Tuple(fields) => {
            lemma_convert_row_total(table, fields, 0, Seq::empty());
        },
        TypeView::Sum(variants) => {
            lemma_convert_rows_total(table, variants, 0, Seq::empty());
        },
        TypeView::Function(input, output) => {
            lemma_convert_row_total(table, input, 0, Seq::empty());
            lemma_convert_row_total(table, output, 0, Seq::empty());
        },
    }
}

/// One memoized conversion.
pub struct CacheEntry {
    pub key: Type,
    pub layout: TargetType,
}

/// The type converter. It remembers the layout of each type that it has
/// converted, so that a type met again is not converted again.
pub struct TypeConverter {
    pub cache: Vec<CacheEntry>,
}

impl TypeConverter {
    /// Whether every remembered layout is the layout of its type under
    /// `table`.
    pub open spec fn wf<L: ExtensionLowering>(&self, table: Seq<Registration<L>>) -> bool {
        forall|i: int|
            0 <= i < self.cache@.len() ==> convert_type(table, (#[trigger] self.cache@[i]).key@) == Ok::<
                Layout,
                EmitErrorView,
            >(self.cache@[i].layout@)
    }

    /// The converter that remembers nothing yet.
    pub fn new() -> (r: TypeConverter)
        ensures
            r.cache@.len() == 0,
    {
        TypeConverter { cache: Vec::new() }
    }

    /// The remembered layout of a type, if there is one.
    fn recall<L: ExtensionLowering>(&self, reg: &ExtensionOpRegistry<L>, t: &Type) -> (r: Option<TargetType>)
        requires
            self.wf(reg.types@),
        ensures
            match remembered_from(self.cache@, t@, 0) {
                Some(at) => r matches Some(l) && l@ == self.cache@[at as int].layout@,
                None => r is None,
            },
            r matches Some(l) ==> convert_type(reg.types@, t@) == Ok::<Layout, EmitErrorView>(l@),
    {
        let mut i: usize = 0;
        while i < self.cache.len()
            invariant
                i <= self.cache.len(),
                self.wf(reg.types@),
                remembered_from(self.cache@, t@, 0) == remembered_from(self.cache@, t@, i as nat),
            decreases self.cache.len() - i,
        {
            if self.cache[i].key.same(t) {
                return Some(self.cache[i].layout.duplicate());
            }
            i += 1;
        }
        None
    }

    /// Converts a row of types.
    #[verifier::loop_isolation(false)]
    pub fn convert_row<L: ExtensionLowering>(&mut self, reg: &ExtensionOpRegistry<L>, row: &Vec<Type>) -> (r:
        Result<Vec<TargetType>, EmitError>)
        requires
            old(self).wf(reg.types@),
        ensures
            final(self).wf(reg.types@),
            row_result(r) == convert_row(reg.types@, type_row_view(*row)),
        decreases row, 1nat,
    {
        proof {
            lemma_type_row_view(*row);
        }
        let mut out: Vec<TargetType> = row_new();
        let mut i: usize = 0;
        while i < row.len()
            invariant
                i <= row.len(),
                self.wf(reg.types@),
                convert_row(reg.types@, type_row_view(*row)) == convert_row_from(
                    reg.types@,
                    type_row_view(*row),
                    i as nat,
                    row_view(out),
                ),
            decreases row.len() - i,
        {
            match self.convert(reg, &row[i]) {
                Err(e) => {
                    return Err(e);
                },
                Ok(l) => {
                    row_push(&mut out, l);
                },
            }
            i += 1;
        }
        Ok(out)
    }

    /// Converts a list of rows of types.
    #[verifier::loop_isolation(false)]
    pub fn convert_rows<L: ExtensionLowering>(&mut self, reg: &ExtensionOpRegistry<L>, rows: &Vec<Vec<Type>>) -> (r:
        Result<Vec<Vec<TargetType>>, EmitError>)
        requires
            old(self).wf(reg.types@),
        ensures
            final(self).wf(reg.types@),
            rows_result(r) == convert_rows_from(reg.types@, type_rows_view(*rows), 0, Seq::empty()),
        decreases rows, 1nat,
    {
        proof {
            lemma_type_rows_view(*rows);
        }
        let mut out: Vec<Vec<TargetType>> = rows_new();
        let mut i: usize = 0;
        while i < rows.len()
            invariant
                i <= rows.len(),
                self.wf(reg.types@),
                convert_rows_from(reg.types@, type_rows_view(*rows), 0, Seq::empty()) == convert_rows_from(
                    reg.types@,
                    type_rows_view(*rows),
                    i as nat,
                    rows_view(out),
                ),
            decreases rows.len() - i,
        {
            match self.convert_row(reg, &rows[i]) {
                Err(e) => {
                    return Err(e);
                },
                Ok(l) => {
                    rows_push(&mut out, l);
                },
            }
            i += 1;
        }
        Ok(out)
    }

    /// Converts a type: a pure function of the type's structure and of the
    /// registered type lowerings. A type that is remembered is answered
    /// from memory, which then stays as it is; a type that was converted
    /// is remembered afterwards.
    pub fn convert<L: ExtensionLowering>(&mut self, reg: &ExtensionOpRegistry<L>, t: &Type) -> (r: Result<
        TargetType,
        EmitError,
    >)
        requires
            old(self).wf(reg.types@),
        ensures
            final(self).wf(reg.types@),
            layout_result(r) == convert_type(reg.types@, t@),
            remembered_from(old(self).cache@, t@, 0) is Some ==> final(self).cache@ == old(self).cache@,
            r is Ok ==> remembered_from(final(self).cache@, t@, 0) is Some,
        decreases t, 0nat,
    {
        match self.recall(reg, t) {
            Some(l) => {
                return Ok(l);
            },
            None => {},
        }
        let r = match t {
            Type::Extension(c) => match reg.resolve_type(&c.extension, &c.name) {
                Err(e) => Err(e),
                Ok(lowering) => match lowering.lower_type(c) {
                    None => Err(
                        EmitError::UnsupportedType { extension: c.extension.clone(), name: c.name.clone() },
                    ),
                    Some(l) => Ok(l),
                },
            },
            Type::Tuple(fields) => match self.convert_row(reg, fields) {
                Err(e) => Err(e),
                Ok(ls) => Ok(TargetType::Struct(ls)),
            },
            Type::Sum(variants) => {
                let bits = discriminant_bits(variants.len());
                proof {
                    lemma_type_rows_view(*variants);
                }
                if rows_all_empty(variants) {
                    Ok(TargetType::Int(bits))
                } else {
                    match self.convert_rows(reg, variants) {
                        Err(e) => Err(e),
                        Ok(vs) => Ok(TargetType::Union { tag_bits: bits, variants: vs }),
                    }
                }
            },
            Type::Function { input, output } => match self.convert_row(reg, input) {
                Err(e) => Err(e),
                Ok(ps) => match self.convert_row(reg, output) {
                    Err(e) => Err(e),
                    Ok(rs) => Ok(TargetType::FuncPtr { params: ps, results: rs }),
                },
            },
        };
        match &r {
            Ok(l) => {
                self.cache.push(CacheEntry { key: t.duplicate(), layout: l.duplicate() });
                proof {
                    lemma_remembered(self.cache@, t@, 0, self.cache@.len() - 1);
                }
            },
            Err(_) => {},
        }
        r
    }
}

/// Whether no variant has a field.
pub fn rows_all_empty(variants: &Vec<Vec<Type>>) -> (r: bool)
    ensures
        r == all_rows_empty(type_rows_view(*variants)),
{
    proof {
        lemma_type_rows_view(*variants);
    }
    let mut i: usize = 0;
    while i < variants.len()
        invariant
            i <= variants.len(),
            forall|k: int| 0 <= k < i ==> (#[trigger] type_rows_view(*variants)[k]).len() == 0,
        decreases variants.len() - i,
    {
        proof {
            lemma_type_row_view(variants[i as int]);
        }
        if variants[i].len() != 0 {
            assert(type_rows_view(*variants)[i as int].len() != 0);
            return false;
        }
        i += 1;
    }
    true
}

/// The place of the first remembered conversion, from position `i` on,
/// of a type whose model is `t`; `None` where no such type is remembered.
pub open spec fn remembered_from(cache: Seq<CacheEntry>, t: TypeView, i: nat) -> Option<nat>
    decreases cache.len() - i,
{
    if i >= cache.len() {
        None
    } else if cache[i as int].key@ == t {
        Some(i)
    } else {
        remembered_from(cache, t, i + 1)
    }
}

/// A type that has a remembered conversion at or after position `i` is
/// found from there.
pub proof fn lemma_remembered(cache: Seq<CacheEntry>, t: TypeView, i: nat, at: int)
    requires
        i <= at < cache.len(),
        cache[at].key@ == t,
    ensures
        remembered_from(cache, t, i) is Some,
    decreases cache.len() - i,
{
    if cache[i as int].key@ != t {
        lemma_remembered(cache, t, i + 1, at);
    }
}

} // verus!
