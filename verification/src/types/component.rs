//! Components: named lists of fields that schemas can share.

use vstd::prelude::*;

verus! {

/// The type of the values of a component's field.
#[derive(Debug, PartialEq, Eq)]
pub enum FieldKind {
    Id,
    ComponentId,
    Component { name: String },
    Boolean,
    Int,
    Float,
    Text,
    Json,
    DateTime,
}

/// The mathematical form of a [`FieldKind`].
pub enum FieldKindView {
    Id,
    ComponentId,
    Component { name: Seq<char> },
    Boolean,
    Int,
    Float,
    Text,
    Json,
    DateTime,
}

impl View for FieldKind {
    type V = FieldKindView;

    open spec fn view(&self) -> FieldKindView {
        match self {
            FieldKind::Id => FieldKindView::Id,
            FieldKind::ComponentId => FieldKindView::ComponentId,
            FieldKind::Component { name } => FieldKindView::Component { name: name@ },
            FieldKind::Boolean => FieldKindView::Boolean,
            FieldKind::Int => FieldKindView::Int,
            FieldKind::Float => FieldKindView::Float,
            FieldKind::Text => FieldKindView::Text,
            FieldKind::Json => FieldKindView::Json,
            FieldKind::DateTime => FieldKindView::DateTime,
        }
    }
}

impl Clone for FieldKind {
    fn clone(&self) -> (r: FieldKind)
        ensures
            r@ == self@,
    {
        match self {
            FieldKind::Id => FieldKind::Id,
            FieldKind::ComponentId => FieldKind::ComponentId,
            FieldKind::Component { name } => FieldKind::Component { name: name.clone() },
            FieldKind::Boolean => FieldKind::Boolean,
            FieldKind::Int => FieldKind::Int,
            FieldKind::Float => FieldKind::Float,
            FieldKind::Text => FieldKind::Text,
            FieldKind::Json => FieldKind::Json,
            FieldKind::DateTime => FieldKind::DateTime,
        }
    }
}

/// One field of a component.
#[derive(Debug, PartialEq, Eq)]
pub struct Field {
    pub name: String,
    pub kind: FieldKind,
    pub related: Option<String>,
    pub primary: bool,
    pub index: bool,
}

/// The mathematical form of a [`Field`].
pub struct FieldView {
    pub name: Seq<char>,
    pub kind: FieldKindView,
    pub related: Option<Seq<char>>,
    pub primary: bool,
    pub index: bool,
}

impl View for Field {
    type V = FieldView;

    open spec fn view(&self) -> FieldView {
        FieldView {
            name: self.name@,
            kind: self.kind@,
            related: match self.related {
                Some(related) => Some(related@),
                None => None,
            },
            primary: self.primary,
            index: self.index,
        }
    }
}

impl Clone for Field {
    fn clone(&self) -> (r: Field)
        ensures
            r@ == self@,
    {
        Field {
            name: self.name.clone(),
            kind: self.kind.clone(),
            related: match &self.related {
                Some(related) => Some(related.clone()),
                None => None,
            },
            primary: self.primary,
            index: self.index,
        }
    }
}

/// A named list of fields.
#[derive(Debug, PartialEq, Eq)]
pub struct Component {
    pub name: String,
    pub fields: Vec<Field>,
}

/// The mathematical form of a [`Component`].
pub struct ComponentView {
    pub name: Seq<char>,
    pub fields: Seq<FieldView>,
}

impl View for Component {
    type V = ComponentView;

    open spec fn view(&self) -> ComponentView {
        ComponentView {
            name: self.name@,
            fields: Seq::new(self.fields@.len(), |i: int| self.fields@[i]@),
        }
    }
}

impl Clone for Component {
    fn clone(&self) -> (r: Component)
        ensures
            r@ == self@,
    {
        let mut fields: Vec<Field> = Vec::new();
        let mut i: usize = 0;
        while i < self.fields.len()
            invariant
                i <= self.fields.len(),
                fields.len() == i,
                forall|j: int| 0 <= j < i ==> fields@[j]@ == self.fields@[j]@,
            decreases self.fields.len() - i,
        {
            fields.push(self.fields[i].clone());
            i += 1;
        }
        let r = Component { name: self.name.clone(), fields };
        assert(r@.fields =~= self@.fields);
        r
    }
}

} // verus!
