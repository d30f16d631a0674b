//! The types of the graph IR. Equality of types is structural.
use vstd::prelude::*;

verus! {

/// An argument of an extension type or operation.
#[derive(Debug, PartialEq, Eq)]
pub enum TypeArg {
    /// A natural number, such as the logarithm of an integer's width.
    BoundedNat(u64),
    /// A symbol.
    Symbol(String),
}

/// The model of a `TypeArg`.
pub enum TypeArgView {
    BoundedNat(u64),
    Symbol(Seq<char>),
}

impl View for TypeArg {
    type V = TypeArgView;

    open spec fn view(&self) -> TypeArgView {
        match self {
            TypeArg::BoundedNat(n) => TypeArgView::BoundedNat(*n),
            TypeArg::Symbol(s) => TypeArgView::Symbol(s@),
        }
    }
}

impl TypeArg {
    /// Structural equality.
    pub fn same(&self, other: &TypeArg) -> (r: bool)
        ensures
            r == (self@ == other@),
    {
        match (self, other) {
            (TypeArg::BoundedNat(x), TypeArg::BoundedNat(y)) => *x == *y,
            (TypeArg::Symbol(x), TypeArg::Symbol(y)) => *x == *y,
            _ => false,
        }
    }

    /// A copy with the same model.
    pub fn duplicate(&self) -> (r: TypeArg)
        ensures
            r@ == self@,
    {
        match self {
            TypeArg::BoundedNat(n) => TypeArg::BoundedNat(*n),
            TypeArg::Symbol(s) => TypeArg::Symbol(s.clone()),
        }
    }
}

/// The model of a list of arguments.
pub open spec fn args_view(a: Vec<TypeArg>) -> Seq<TypeArgView> {
    Seq::new(a.len() as nat, |i: int| a[i]@)
}

/// Whether two lists of arguments are alike.
pub fn args_same(a: &Vec<TypeArg>, b: &Vec<TypeArg>) -> (r: bool)
    ensures
        r == (args_view(*a) == args_view(*b)),
{
    if a.len() != b.len() {
        assert(args_view(*a).len() != args_view(*b).len());
        return false;
    }
    let mut i: usize = 0;
    while i < a.len()
        invariant
            i <= a.len(),
            a.len() == b.len(),
            forall|k: int| 0 <= k < i ==> a[k]@ == b[k]@,
        decreases a.len() - i,
    {
        if !a[i].same(&b[i]) {
            assert(args_view(*a)[i as int] != args_view(*b)[i as int]);
            return false;
        }
        i += 1;
    }
    assert(args_view(*a) =~= args_view(*b));
    true
}

/// A copy of a list of arguments.
pub fn args_duplicate(a: &Vec<TypeArg>) -> (r: Vec<TypeArg>)
    ensures
        args_view(r) == args_view(*a),
{
    let mut out: Vec<TypeArg> = Vec::new();
    let mut i: usize = 0;
    while i < a.len()
        invariant
            i <= a.len(),
            out.len() == i,
            forall|k: int| 0 <= k < i ==> out[k]@ == a[k]@,
        decreases a.len() - i,
    {
        out.push(a[i].duplicate());
        i += 1;
    }
    assert(args_view(out) =~= args_view(*a));
    out
}

/// An opaque type that an extension defines.
#[derive(Debug, PartialEq, Eq)]
pub struct CustomType {
    pub extension: String,
    pub name: String,
    pub args: Vec<TypeArg>,
}

/// The model of a `CustomType`.
pub struct CustomTypeView {
    pub extension: Seq<char>,
    pub name: Seq<char>,
    pub args: Seq<TypeArgView>,
}

impl View for CustomType {
    type V = CustomTypeView;

    open spec fn view(&self) -> CustomTypeView {
        CustomTypeView { extension: self.extension@, name: self.name@, args: args_view(self.args) }
    }
}

impl CustomType {
    pub fn new(extension: String, name: String, args: Vec<TypeArg>) -> (r: CustomType)
        ensures
            r.extension == extension,
            r.name == name,
            r.args == args,
    {
        CustomType { extension, name, args }
    }

    /// Structural equality.
    pub fn same(&self, other: &CustomType) -> (r: bool)
        ensures
            r == (self@ == other@),
    {
        self.extension == other.extension && self.name == other.name && args_same(
            &self.args,
            &other.args,
        )
    }

    /// A copy with the same model.
    pub fn duplicate(&self) -> (r: CustomType)
        ensures
            r@ == self@,
    {
        CustomType {
            extension: self.extension.clone(),
            name: self.name.clone(),
            args: args_duplicate(&self.args),
        }
    }
}

/// A type of the graph IR.
#[derive(Debug, PartialEq, Eq)]
pub enum Type {
    /// An opaque type of an extension.
    Extension(CustomType),
    /// An ordered list of fields.
    Tuple(Vec<Type>),
    /// An ordered list of variants, each a row of fields.
    Sum(Vec<Vec<Type>>),
    /// A function from a row of inputs to a row of outputs.
    Function { input: Vec<Type>, output: Vec<Type> },
}

/// The model of a `Type`.
pub enum TypeView {
    Extension(CustomTypeView),
    Tuple(Seq<TypeView>),
    Sum(Seq<Seq<TypeView>>),
    Function(Seq<TypeView>, Seq<TypeView>),
}

/// The model of a row of types.
pub open spec fn type_row_view(r: Vec<Type>) -> Seq<TypeView>
    decreases r, 1int,
{
    Seq::new(
        r.len() as nat,
        |i: int| if 0 <= i < r.len() { r[i]@ } else { TypeView::Tuple(Seq::empty()) },
    )
}

/// The model of a list of rows of types.
pub open spec fn type_rows_view(rs: Vec<Vec<Type>>) -> Seq<Seq<TypeView>>
    decreases rs, 2int,
{
    Seq::new(
        rs.len() as nat,
        |i: int| if 0 <= i < rs.len() { type_row_view(rs[i]) } else { Seq::empty() },
    )
}

impl View for Type {
    type V = TypeView;

    open spec fn view(&self) -> TypeView
        decreases self, 0int,
    {
        match self {
            Type::Extension(c) => TypeView::Extension(c@),
            Type::Tuple(fields) => TypeView::Tuple(type_row_view(*fields)),
            Type::Sum(variants) => TypeView::Sum(type_rows_view(*variants)),
            Type::Function { input, output } => TypeView::Function(
                type_row_view(*input),
                type_row_view(*output),
            ),
        }
    }
}

pub proof fn lemma_type_row_view(r: Vec<Type>)
    ensures
        type_row_view(r).len() == r.len(),
        forall|i: int| 0 <= i < r.len() ==> #[trigger] type_row_view(r)[i] == r[i]@,
{
}

pub proof fn lemma_type_rows_view(rs: Vec<Vec<Type>>)
    ensures
        type_rows_view(rs).len() == rs.len(),
        forall|i: int| 0 <= i < rs.len() ==> #[trigger] type_rows_view(rs)[i] == type_row_view(rs[i]),
{
}

/// Appends a type to a row.
pub fn type_row_push(row: &mut Vec<Type>, t: Type)
    ensures
        final(row)@ == old(row)@.push(t),
        type_row_view(*final(row)) == type_row_view(*old(row)).push(t@),
{
    row.push(t);
    proof {
        lemma_type_row_view(*row);
        lemma_type_row_view(*old(row));
        assert(type_row_view(*row) =~= type_row_view(*old(row)).push(t@));
    }
}

/// A copy of the row `a` followed by a copy of the row `b`.
pub fn type_row_concat(a: &Vec<Type>, b: &Vec<Type>) -> (r: Vec<Type>)
    ensures
        type_row_view(r) == type_row_view(*a) + type_row_view(*b),
{
    let mut row = type_row_duplicate(a);
    let ghost first = type_row_view(row);
    let mut k: usize = 0;
    proof {
        lemma_type_row_view(*b);
        assert(type_row_view(row) =~= first + type_row_view(*b).take(0));
    }
    while k < b.len()
        invariant
            k <= b.len(),
            first == type_row_view(*a),
            type_row_view(row) == first + type_row_view(*b).take(k as int),
        decreases b.len() - k,
    {
        proof {
            lemma_type_row_view(*b);
        }
        type_row_push(&mut row, b[k].duplicate());
        proof {
            assert(type_row_view(row) =~= first + type_row_view(*b).take(k + 1));
        }
        k += 1;
    }
    proof {
        lemma_type_row_view(*b);
        assert(type_row_view(*b).take(b.len() as int) =~= type_row_view(*b));
    }
    row
}

/// Whether two rows of types are alike, field by field.
#[verifier::loop_isolation(false)]
pub fn type_row_same(a: &Vec<Type>, b: &Vec<Type>) -> (r: bool)
    ensures
        r == (type_row_view(*a) == type_row_view(*b)),
    decreases a, 1int,
{
    proof {
        lemma_type_row_view(*a);
        lemma_type_row_view(*b);
    }
    if a.len() != b.len() {
        return false;
    }
    let mut i: usize = 0;
    while i < a.len()
        invariant
            i <= a.len(),
            forall|k: int| 0 <= k < i ==> a[k]@ == b[k]@,
        decreases a.len() - i,
    {
        if !a[i].same(&b[i]) {
            assert(type_row_view(*a)[i as int] != type_row_view(*b)[i as int]);
            return false;
        }
        i += 1;
    }
    assert(type_row_view(*a) =~= type_row_view(*b));
    true
}

/// Whether two lists of rows are alike.
#[verifier::loop_isolation(false)]
pub fn type_rows_same(a: &Vec<Vec<Type>>, b: &Vec<Vec<Type>>) -> (r: bool)
    ensures
        r == (type_rows_view(*a) == type_rows_view(*b)),
    decreases a, 2int,
{
    proof {
        lemma_type_rows_view(*a);
        lemma_type_rows_view(*b);
    }
    if a.len() != b.len() {
        return false;
    }
    let mut i: usize = 0;
    while i < a.len()
        invariant
            i <= a.len(),
            forall|k: int| 0 <= k < i ==> type_row_view(a[k]) == type_row_view(b[k]),
        decreases a.len() - i,
    {
        if !type_row_same(&a[i], &b[i]) {
            assert(type_rows_view(*a)[i as int] != type_rows_view(*b)[i as int]);
            return false;
        }
        i += 1;
    }
    assert(type_rows_view(*a) =~= type_rows_view(*b));
    true
}

/// A copy of a row of types.
#[verifier::loop_isolation(false)]
pub fn type_row_duplicate(a: &Vec<Type>) -> (r: Vec<Type>)
    ensures
        type_row_view(r) == type_row_view(*a),
    decreases a, 1int,
{
    let mut out: Vec<Type> = Vec::new();
    let mut i: usize = 0;
    while i < a.len()
        invariant
            i <= a.len(),
            out.len() == i,
            forall|k: int| 0 <= k < i ==> out[k]@ == a[k]@,
        decreases a.len() - i,
    {
        out.push(a[i].duplicate());
        i += 1;
    }
    proof {
        lemma_type_row_view(*a);
        lemma_type_row_view(out);
        assert(type_row_view(out) =~= type_row_view(*a));
    }
    out
}

/// A copy of a list of rows of types.
#[verifier::loop_isolation(false)]
pub fn type_rows_duplicate(a: &Vec<Vec<Type>>) -> (r: Vec<Vec<Type>>)
    ensures
        type_rows_view(r) == type_rows_view(*a),
    decreases a, 2int,
{
    let mut out: Vec<Vec<Type>> = Vec::new();
    let mut i: usize = 0;
    while i < a.len()
        invariant
            i <= a.len(),
            out.len() == i,
            forall|k: int| 0 <= k < i ==> type_row_view(out[k]) == type_row_view(a[k]),
        decreases a.len() - i,
    {
        out.push(type_row_duplicate(&a[i]));
        i += 1;
    }
    proof {
        lemma_type_rows_view(*a);
        lemma_type_rows_view(out);
        assert(type_rows_view(out) =~= type_rows_view(*a));
    }
    out
}

/// The model of the sum of `n` variants without fields.
pub open spec fn unit_sum_view(n: nat) -> TypeView {
    TypeView::Sum(Seq::new(n, |i: int| Seq::<TypeView>::empty()))
}

/// Whether every variant of a sum is empty.
pub open spec fn all_rows_empty(variants: Seq<Seq<TypeView>>) -> bool {
    forall|i: int| 0 <= i < variants.len() ==> (#[trigger] variants[i]).len() == 0
}

impl Type {
    /// The tuple of the given fields.
    pub fn new_tuple(fields: Vec<Type>) -> (r: Type)
        ensures
            r@ == TypeView::Tuple(type_row_view(fields)),
    {
        Type::Tuple(fields)
    }

    /// The sum of the given variants.
    pub fn new_sum(variants: Vec<Vec<Type>>) -> (r: Type)
        ensures
            r@ == TypeView::Sum(type_rows_view(variants)),
    {
        Type::Sum(variants)
    }

    /// The sum of `n` variants without fields.
    pub fn new_unit_sum(n: usize) -> (r: Type)
        ensures
            r@ == unit_sum_view(n as nat),
    {
        let mut variants: Vec<Vec<Type>> = Vec::new();
        let mut i: usize = 0;
        while i < n
            invariant
                i <= n,
                variants.len() == i,
                forall|k: int| 0 <= k < i ==> (#[trigger] variants[k]).len() == 0,
            decreases n - i,
        {
            variants.push(Vec::new());
            i += 1;
        }
        proof {
            lemma_type_rows_view(variants);
            assert(type_rows_view(variants) =~= Seq::new(n as nat, |i: int| Seq::<TypeView>::empty())) by {
                assert forall|k: int| 0 <= k < n implies #[trigger] type_rows_view(variants)[k]
                    =~= Seq::<TypeView>::empty() by {
                    lemma_type_row_view(variants[k]);
                }
            }
        }
        Type::Sum(variants)
    }

    /// The empty tuple.
    pub fn unit() -> (r: Type)
        ensures
            r@ == TypeView::Tuple(Seq::empty()),
    {
        let fields: Vec<Type> = Vec::new();
        proof {
            assert(type_row_view(fields) =~= Seq::empty());
        }
        Type::Tuple(fields)
    }

    /// The type of booleans: the sum of two variants without fields.
    pub fn bool_t() -> (r: Type)
        ensures
            r@ == unit_sum_view(2),
    {
        Type::new_unit_sum(2)
    }

    /// Structural equality: `true` exactly when both have the same model.
    pub fn same(&self, other: &Type) -> (r: bool)
        ensures
            r == (self@ == other@),
        decreases self, 0int,
    {
        match (self, other) {
            (Type::Extension(x), Type::Extension(y)) => x.same(y),
            (Type::Tuple(x), Type::Tuple(y)) => type_row_same(x, y),
            (Type::Sum(x), Type::Sum(y)) => type_rows_same(x, y),
            (Type::Function { input: ix, output: ox }, Type::Function { input: iy, output: oy }) => {
                type_row_same(ix, iy) && type_row_same(ox, oy)
            },
            _ => false,
        }
    }

    /// A deep copy with the same model.
    pub fn duplicate(&self) -> (r: Type)
        ensures
            r@ == self@,
        decreases self, 0int,
    {
        match self {
            Type::Extension(c) => Type::Extension(c.duplicate()),
            Type::Tuple(fields) => Type::Tuple(type_row_duplicate(fields)),
            Type::Sum(variants) => Type::Sum(type_rows_duplicate(variants)),
            Type::Function { input, output } => Type::Function {
                input: type_row_duplicate(input),
                output: type_row_duplicate(output),
            },
        }
    }
}

impl Clone for Type {
    fn clone(&self) -> (r: Type)
        ensures
            r@ == self@,
    {
        self.duplicate()
    }
}

/// The signature of a dataflow container: its input and output rows.
#[derive(Debug, PartialEq, Eq)]
pub struct FunctionType {
    pub input: Vec<Type>,
    pub output: Vec<Type>,
}

impl FunctionType {
    pub fn new(input: Vec<Type>, output: Vec<Type>) -> (r: FunctionType)
        ensures
            r.input == input,
            r.output == output,
    {
        FunctionType { input, output }
    }

    /// The signature whose outputs are its inputs.
    pub fn new_endo(row: Vec<Type>) -> (r: FunctionType)
        ensures
            type_row_view(r.input) == type_row_view(row),
            type_row_view(r.output) == type_row_view(row),
    {
        let output = type_row_duplicate(&row);
        FunctionType { input: row, output }
    }

    /// A copy with the same rows.
    pub fn duplicate(&self) -> (r: FunctionType)
        ensures
            type_row_view(r.input) == type_row_view(self.input),
            type_row_view(r.output) == type_row_view(self.output),
    {
        FunctionType { input: type_row_duplicate(&self.input), output: type_row_duplicate(&self.output) }
    }
}

} // verus!
