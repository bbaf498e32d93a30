use vstd::prelude::*;
use crate::classify::GenError;
use crate::emit::{adapters_code, load_code, push_adapters, push_load};
use crate::model::ModuleDecl;
use crate::module::{assemble, assemble_spec, module_wf, namespace_spec, Module, ModuleV};
use crate::object::ObjectV;
use crate::table::entries_view;

verus! {

/// The adapters of each exported object, in order.
pub open spec fn objects_code(objs: Seq<ObjectV>) -> Seq<char>
    decreases objs.len(),
{
    if objs.len() == 0 {
        Seq::empty()
    } else {
        objects_code(objs.drop_last()) + adapters_code(objs.last().self_ty, objs.last().metatable)
    }
}

/// The glue code of an assembled module: the adapters of its objects, then
/// its `load` entry point.
pub open spec fn glue_spec(mv: ModuleV) -> Seq<char> {
    objects_code(mv.objects) + load_code(mv.ident, namespace_spec(mv))
}

/// The glue code generated for a module declaration, or the error that
/// stops generation.
pub open spec fn generate_spec(m: ModuleDecl) -> Result<Seq<char>, GenError> {
    match assemble_spec(m) {
        Ok(mv) => Ok(glue_spec(mv)),
        Err(e) => Err(e),
    }
}

impl Module {
    /// Renders the module's glue code.
    pub fn render(&self) -> (r: String)
        requires
            module_wf(self@),
        ensures
            r@ == glue_spec(self@),
    {
        let mut out = String::new();
        let ghost objs = self@.objects;
        let mut i: usize = 0;
        while i < self.objects.len()
            invariant
                i <= self.objects@.len(),
                objs == self@.objects,
                out@ == objects_code(objs.subrange(0, i as int)),
            decreases self.objects@.len() - i,
        {
            let ghost next = objs.subrange(0, i + 1);
            assert(next.drop_last() =~= objs.subrange(0, i as int));
            assert(next.last() == self.objects@[i as int]@);
            push_adapters(&mut out, &self.objects[i].self_ty, &self.objects[i].metatable);
            i = i + 1;
        }
        assert(objs.subrange(0, i as int) =~= objs);
        let ns = self.namespace();
        push_load(&mut out, &self.ident, &ns);
        out
    }
}

/// Generates the glue code for module `m`: the adapters of its exported
/// objects and its `load` entry point. Fails, producing nothing, on the
/// first error met.
pub fn generate(m: &ModuleDecl) -> (r: Result<String, GenError>)
    ensures
        generate_spec(*m) == match r {
            Ok(s) => Ok::<Seq<char>, GenError>(s@),
            Err(e) => Err(e),
        },
{
    match assemble(m) {
        Ok(module) => Ok(module.render()),
        Err(e) => Err(e),
    }
}

} // verus!
