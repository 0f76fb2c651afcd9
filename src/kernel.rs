use vstd::prelude::*;
use crate::workload::Workload;

verus! {

#[verifier::external_type_specification]
#[verifier::external_body]
pub struct ExContext(tera::Context);

/// The keys that a template context holds.
pub uninterp spec fn context_keys(c: tera::Context) -> Set<Seq<char>>;

/// Relies on `tera::Context::insert`: the number is serialized and stored under `key`,
/// replacing any value there; serializing a `u32` does not fail.
#[verifier::external_body]
fn context_insert_u32(ctx: &mut tera::Context, key: &str, value: u32)
    ensures
        context_keys(*final(ctx)) == context_keys(*old(ctx)).insert(key@),
{
    ctx.insert(key, &value);
}

/// Template contexts that kernel sources are rendered with.
pub trait KernelContextExt: Sized {
    spec fn spec_keys(&self) -> Set<Seq<char>>;

    /// Stores the workgroup size of `workload` under `workgroup_size_x`, `_y` and `_z`.
    fn insert_workload(&mut self, workload: &Workload)
        ensures
            final(self).spec_keys() == old(self).spec_keys().insert("workgroup_size_x"@).insert(
                "workgroup_size_y"@,
            ).insert("workgroup_size_z"@),
    ;
}

impl KernelContextExt for tera::Context {
    open spec fn spec_keys(&self) -> Set<Seq<char>> {
        context_keys(*self)
    }

    fn insert_workload(&mut self, workload: &Workload) {
        proof {
            reveal_strlit("workgroup_size_x");
            reveal_strlit("workgroup_size_y");
            reveal_strlit("workgroup_size_z");
        }
        let size = workload.size();
        context_insert_u32(self, "workgroup_size_x", size.0);
        context_insert_u32(self, "workgroup_size_y", size.1);
        context_insert_u32(self, "workgroup_size_z", size.2);
    }
}

} // verus!
