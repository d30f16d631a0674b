//! The emit context: the extension registry and the type converter that
//! one emission pass works with.
use vstd::prelude::*;
use crate::layout::TargetType;
use crate::types::Type;
use crate::types::type_row_view;
use crate::extension::ExtensionLowering;
use crate::extension::ExtensionOpRegistry;
use crate::convert::TypeConverter;
use crate::convert::convert_type;
use crate::convert::remembered_from;
use crate::convert::convert_row;
use crate::convert::layout_result;
use crate::convert::row_result;
use crate::error::EmitError;

verus! {

/// The top-level orchestrator of emission. The registry is fixed when the
/// context is made, and is only read while a module is emitted.
pub struct EmitContext<L> {
    pub registry: ExtensionOpRegistry<L>,
    pub types: TypeConverter,
}

impl<L: ExtensionLowering> EmitContext<L> {
    /// Whether the converter's memory agrees with the registry.
    pub open spec fn wf(&self) -> bool {
        self.types.wf(self.registry.types@)
    }

    /// A context over the given registry.
    pub fn new(registry: ExtensionOpRegistry<L>) -> (r: Self)
        ensures
            r.wf(),
            r.registry == registry,
    {
        EmitContext { registry, types: TypeConverter::new() }
    }

    /// Converts a type under the registry of this context.
    pub fn convert(&mut self, t: &Type) -> (r: Result<TargetType, EmitError>)
        requires
            old(self).wf(),
        ensures
            final(self).wf(),
            final(self).registry == old(self).registry,
            layout_result(r) == convert_type(old(self).registry.types@, t@),
            remembered_from(old(self).types.cache@, t@, 0) is Some ==> final(self).types.cache@
                == old(self).types.cache@,
            r is Ok ==> remembered_from(final(self).types.cache@, t@, 0) is Some,
    {
        self.types.convert(&self.registry, t)
    }

    /// Converts a row of types under the registry of this context.
    pub fn convert_row(&mut self, row: &Vec<Type>) -> (r: Result<Vec<TargetType>, EmitError>)
        requires
            old(self).wf(),
        ensures
            final(self).wf(),
            final(self).registry == old(self).registry,
            row_result(r) == convert_row(old(self).registry.types@, type_row_view(*row)),
    {
        self.types.convert_row(&self.registry, row)
    }
}

} // verus!
