//! The compiler: the modules that are compiled together.
use crate::frontend::module::{eof_of, Module};
use crate::frontend::module::span::{ModuleId, ModuleTag};
use crate::util::indexed_vector::IndexedVec;
use vstd::prelude::*;

verus! {

pub struct Compiler {
    pub modules: IndexedVec<ModuleTag, Module>,
}

impl Compiler {
    /// A compiler without modules.
    pub fn new() -> (r: Compiler)
        ensures
            r.modules@.len() == 0,
    {
        Compiler { modules: IndexedVec::new() }
    }

    /// Adds a module with the text `data`, on which no stage has run, and
    /// returns its handle.
    pub fn module_from_string(&mut self, data: String) -> (id: ModuleId)
        ensures
            id.0 == old(self).modules@.len(),
            final(self).modules@.len() == old(self).modules@.len() + 1,
            final(self).modules@.subrange(0, old(self).modules@.len() as int) == old(self).modules@,
            final(self).modules@[id.0 as int].id == id,
            final(self).modules@[id.0 as int].source == data,
            final(self).modules@[id.0 as int].eof_token == eof_of(
                id,
                final(self).modules@[id.0 as int].bytes(),
            ),
            final(self).modules@[id.0 as int].tokens@.len() == 0,
            final(self).modules@[id.0 as int].ast_nodes@.len() == 0,
            final(self).modules@[id.0 as int].ir@.len() == 0,
            final(self).modules@[id.0 as int].code@.len() == 0,
    {
        let id: ModuleId = ModuleId::from(self.modules.len());
        self.modules.push(Module::new(id, data));
        proof {
            let before = old(self).modules@;
            assert(self.modules@.subrange(0, before.len() as int) =~= before);
        }
        id
    }
}

} // verus!
