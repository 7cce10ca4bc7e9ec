//! Identifies a node in the AST: an id and the module path that leads to it.

use vstd::prelude::*;
use vstd::string::StringExecFns;

verus! {

/// The fully qualified name: the module parts joined by `::`, then the id.
pub open spec fn fqn_of(module: Seq<Seq<char>>, id: Seq<char>) -> Seq<char>
    decreases module.len(),
{
    if module.len() == 0 {
        id
    } else {
        module[0] + "::"@ + fqn_of(module.drop_first(), id)
    }
}

/// Identifies a node in the AST.
#[derive(Debug, PartialEq)]
pub struct NodeId {
    id: String,
    module: Vec<String>,
}

impl NodeId {
    /// The node's id, as a sequence of characters.
    pub closed spec fn spec_id(&self) -> Seq<char> {
        self.id@
    }

    /// The node's module path, as sequences of characters.
    pub closed spec fn spec_module(&self) -> Seq<Seq<char>> {
        crate::error::strs_of(self.module@)
    }

    /// Create a new `NodeId` from an id and module list.
    pub fn new(id: String, module: Vec<String>) -> (r: Self)
        ensures
            r.spec_id() == id@,
            r.spec_module() == crate::error::strs_of(module@),
    {
        Self { id, module }
    }

    /// The node's id.
    pub fn id(&self) -> (r: &str)
        ensures
            r@ == self.spec_id(),
    {
        self.id.as_str()
    }

    /// The node's module.
    pub fn module(&self) -> (r: &Vec<String>)
        ensures
            crate::error::strs_of(r@) == self.spec_module(),
    {
        &self.module
    }

    /// Replace the node's module path.
    pub fn module_mut(&mut self, module: Vec<String>)
        ensures
            final(self).spec_id() == old(self).spec_id(),
            final(self).spec_module() == crate::error::strs_of(module@),
    {
        self.module = module;
    }

    /// The fully qualified name of this node under its module path.
    pub fn fqn(&self) -> (r: String)
        ensures
            r@ == fqn_of(self.spec_module(), self.spec_id()),
    {
        self.join_with(self.id.as_str())
    }

    /// The fully qualified name of some target identifier under this node's
    /// module path.
    pub fn target_fqn(&self, target: &str) -> (r: String)
        ensures
            r@ == fqn_of(self.spec_module(), target@),
    {
        self.join_with(target)
    }

    /// Joins the module path with `::`, ending in the given tail.
    #[verifier::loop_isolation(false)]
    fn join_with(&self, tail: &str) -> (r: String)
        ensures
            r@ == fqn_of(self.spec_module(), tail@),
    {
        broadcast use vstd::seq_lib::group_seq_lib_default;

        let ghost m = self.spec_module();
        let mut out = String::new();
        let mut i: usize = 0;
        proof {
            assert(m.skip(0) =~= m);
            assert(out@ =~= Seq::<char>::empty());
        }
        while i < self.module.len()
            invariant
                i <= self.module@.len(),
                out@ + fqn_of(m.skip(i as int), tail@) == fqn_of(m, tail@),
            decreases self.module@.len() - i,
        {
            proof {
                assert(m.skip(i as int)[0] == m[i as int]);
                assert(m.skip(i as int).drop_first() =~= m.skip(i as int + 1));
                assert(m[i as int] == self.module@[i as int]@);
            }
            let ghost out0 = out@;
            out.append(self.module[i].as_str());
            out.append("::");
            proof {
                assert(out@ =~= out0 + m[i as int] + "::"@);
                assert(out@ + fqn_of(m.skip(i as int + 1), tail@) =~= out0 + (m[i as int] + "::"@
                    + fqn_of(m.skip(i as int + 1), tail@)));
            }
            i = i + 1;
        }
        proof {
            assert(m.skip(m.len() as int).len() == 0);
        }
        let ghost out1 = out@;
        out.append(tail);
        proof {
            assert(out@ =~= out1 + tail@);
        }
        out
    }
}

} // verus!
