//! The single global variable scope.
use vstd::hash_map::StringHashMap;
use vstd::prelude::*;

use crate::error::{Runtime, RuntimeView};
use crate::parse::expr::{clone_literal, Literal, LiteralView};
use crate::{Located, LocatedView};

verus! {

/// The mapping from variable name to value: one flat namespace, keys
/// unique, the latest definition winning.
pub struct Environment {
    values: StringHashMap<Literal>,
}

impl View for Environment {
    type V = Map<Seq<char>, LiteralView>;

    open spec fn view(&self) -> Map<Seq<char>, LiteralView> {
        self.spec_values().map_values(|l: Literal| l@)
    }
}

impl Environment {
    /// The stored bindings.
    pub closed spec fn spec_values(&self) -> Map<Seq<char>, Literal> {
        self.values@
    }

    /// An empty scope.
    pub fn new() -> (r: Self)
        ensures
            r@ == Map::<Seq<char>, LiteralView>::empty(),
    {
        let r = Self { values: StringHashMap::new() };
        proof {
            assert(r@ =~= Map::<Seq<char>, LiteralView>::empty());
        }
        r
    }

    /// Binds a name to a value, replacing any earlier binding.
    pub fn define(&mut self, name: String, value: Literal)
        ensures
            final(self)@ == old(self)@.insert(name@, value@),
    {
        let ghost nv = name@;
        let ghost vv = value@;
        self.values.insert(name, value);
        proof {
            assert(self@ =~= old(self)@.insert(nv, vv));
        }
    }

    /// Binds a name to a value; reports whether the name was new. An
    /// already-bound name is still overwritten, but flagged as an error.
    pub fn assign(&mut self, name: String, value: Literal) -> (r: Result<(), ()>)
        ensures
            final(self)@ == old(self)@.insert(name@, value@),
            r is Ok <==> !old(self)@.contains_key(name@),
    {
        let existed = self.values.contains_key(name.as_str());
        let ghost nv = name@;
        let ghost vv = value@;
        self.values.insert(name, value);
        proof {
            assert(self@ =~= old(self)@.insert(nv, vv));
        }
        if existed {
            Err(())
        } else {
            Ok(())
        }
    }

    /// Looks a name up: its value, or `UndefinedVariable` at the name's
    /// position when there is no binding.
    pub fn get(&self, name: Located<String>) -> (r: Result<Literal, Located<Runtime>>)
        ensures
            self@.contains_key(name.spec_value()@) ==> (r matches Ok(l) && l@ == self@[name.spec_value()@]),
            !self@.contains_key(name.spec_value()@) ==> (r matches Err(e) && e@ == (LocatedView {
                pos: name.spec_pos(),
                value: RuntimeView::UndefinedVariable(name.spec_value()@),
            })),
    {
        match self.values.get(name.value().as_str()) {
            Some(l) => Ok(clone_literal(l)),
            None => Err(name.co_locate(Runtime::UndefinedVariable(name.value().clone()))),
        }
    }
}

} // verus!
