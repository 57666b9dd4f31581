//! Components, held in memory.

use crate::error::Error;
use crate::types::component::{Component, ComponentView};
use crate::types::names::{
    lemma_same_names, lemma_to_map, lemma_viewed_with_name, lemma_viewed_without_name,
    lemma_with_name, lemma_without_name, named, put, search, sorted, take, to_map, viewed,
    without_name,
};
use vstd::prelude::*;

verus! {

/// The components of a database by name.
#[derive(Debug)]
pub struct ComponentRepository {
    components: Vec<(String, Component)>,
}

impl View for ComponentRepository {
    type V = Map<Seq<char>, ComponentView>;

    /// The components by name.
    closed spec fn view(&self) -> Map<Seq<char>, ComponentView> {
        to_map(viewed(self.components@))
    }
}

impl ComponentRepository {
    #[verifier::type_invariant]
    closed spec fn names_rise(self) -> bool {
        sorted(named(self.components@))
    }

    /// A repository without components.
    pub fn new() -> (r: ComponentRepository)
        ensures
            r@ == Map::<Seq<char>, ComponentView>::empty(),
    {
        let r = ComponentRepository { components: Vec::new() };
        assert(r@ =~= Map::empty());
        r
    }

    /// Keeps `component` under its name, in the place of a component of
    /// the same name.
    pub fn set_component(&mut self, component: Component) -> (r: Result<(), Error>)
        ensures
            r is Ok,
            final(self)@ == old(self)@.insert(component@.name, component@),
    {
        proof {
            use_type_invariant(&*self);
        }
        let mut taken = ComponentRepository::new();
        core::mem::swap(self, &mut taken);
        let ComponentRepository { mut components } = taken;
        let ghost before = components@;
        proof {
            lemma_same_names(named(before), viewed(before), component.name@);
            lemma_with_name(viewed(before), component.name@, component@);
        }
        let _ = put(&mut components, component.name.clone(), component);
        proof {
            lemma_viewed_with_name(before, components@, component.name@, component);
        }
        *self = ComponentRepository { components };
        Ok(())
    }

    /// The component of the given name, if there is one.
    pub fn get_component(&self, name: &str) -> (r: Result<Option<Component>, Error>)
        ensures
            match r {
                Ok(Some(found)) => self@.contains_key(name@) && self@[name@] == found@,
                Ok(None) => !self@.contains_key(name@),
                Err(_) => false,
            },
    {
        proof {
            use_type_invariant(self);
            lemma_same_names(named(self.components@), viewed(self.components@), name@);
        }
        let (at, found) = search(&self.components, name);
        if found {
            proof {
                lemma_to_map(viewed(self.components@), at as int);
            }
            Ok(Some(self.components[at].1.clone()))
        } else {
            Ok(None)
        }
    }

    /// Forgets the component of the given name, if there is one.
    pub fn delete_component(&mut self, name: &str) -> (r: Result<(), Error>)
        ensures
            r is Ok,
            final(self)@ == old(self)@.remove(name@),
    {
        proof {
            use_type_invariant(&*self);
        }
        let mut taken = ComponentRepository::new();
        core::mem::swap(self, &mut taken);
        let ComponentRepository { mut components } = taken;
        let ghost before = components@;
        proof {
            lemma_same_names(named(before), viewed(before), name@);
            lemma_without_name(viewed(before), name@);
        }
        let _ = take(&mut components, name);
        proof {
            lemma_viewed_without_name(before, components@, name@);
            assert(to_map(without_name(viewed(before), name@)) =~= to_map(viewed(before)).remove(
                name@,
            ));
        }
        *self = ComponentRepository { components };
        Ok(())
    }
}

} // verus!
