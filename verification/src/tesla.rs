//! The rule definition language: tuples, events and rules.

pub mod expressions;
pub mod number;
pub mod predicates;

use crate::tesla::expressions::{BasicType, Expression, Value, ValueModel};
use crate::tesla::predicates::Predicate;
use vstd::prelude::*;

verus! {

/// Whether tuples are static data or event notifications.
#[derive(Clone, Copy, Debug, PartialEq, Eq, Structural)]
pub enum TupleType {
    /// The tuples come from a persistent data source.
    Static,
    /// The tuples come from the event stream.
    Event,
}

/// Declaration of an attribute of a tuple.
#[derive(Debug)]
pub struct AttributeDeclaration {
    /// Name of the attribute.
    pub name: String,
    /// Type of the attribute.
    pub ty: BasicType,
}

impl Clone for AttributeDeclaration {
    fn clone(&self) -> (copy: AttributeDeclaration)
        ensures
            copy == *self,
    {
        AttributeDeclaration { name: self.name.clone(), ty: self.ty }
    }
}

/// Declaration of a tuple.
#[derive(Debug)]
pub struct TupleDeclaration {
    /// Static data or event.
    pub ty: TupleType,
    /// Unique numerical identifier.
    pub id: usize,
    /// Unique name.
    pub name: String,
    /// The attributes of the tuple.
    pub attributes: Vec<AttributeDeclaration>,
}

/// Template of the event that a successful rule evaluation emits.
#[derive(Debug)]
pub struct EventTemplate {
    /// Id of the declaration of the emitted event.
    pub ty_id: usize,
    /// The expressions that give the values of its attributes.
    pub attributes: Vec<Expression>,
}

/// A rule.
#[derive(Debug)]
pub struct Rule {
    /// The predicates that have to occur; the first one is the trigger.
    pub predicates: Vec<Predicate>,
    /// The expressions that have to hold for an event to be emitted.
    pub filters: Vec<Expression>,
    /// Template of the emitted event.
    pub event_template: EventTemplate,
    /// Indices of the event predicates whose events are consumed by a match.
    pub consuming: Vec<usize>,
}

impl Rule {
    /// Makes a rule of its parts.
    pub fn new(
        predicates: Vec<Predicate>,
        filters: Vec<Expression>,
        event_template: EventTemplate,
        consuming: Vec<usize>,
    ) -> (rule: Rule)
        ensures
            rule.predicates == predicates,
            rule.filters == filters,
            rule.event_template == event_template,
            rule.consuming == consuming,
    {
        Rule { predicates, filters, event_template, consuming }
    }

    /// The predicates of the rule.
    pub fn predicates(&self) -> (predicates: &Vec<Predicate>)
        ensures
            *predicates == self.predicates,
    {
        &self.predicates
    }

    /// The filters of the rule.
    pub fn filters(&self) -> (filters: &Vec<Expression>)
        ensures
            *filters == self.filters,
    {
        &self.filters
    }

    /// The template of the emitted event.
    pub fn event_template(&self) -> (template: &EventTemplate)
        ensures
            *template == self.event_template,
    {
        &self.event_template
    }

    /// The indices of the consumed predicates.
    pub fn consuming(&self) -> (consuming: &Vec<usize>)
        ensures
            *consuming == self.consuming,
    {
        &self.consuming
    }
}

/// A tuple.
#[derive(Debug)]
pub struct Tuple {
    /// Id of the declaration of the tuple.
    pub ty_id: usize,
    /// The values of the attributes.
    pub data: Vec<Value>,
}

/// What a `Tuple` holds.
pub struct TupleModel {
    pub ty_id: usize,
    pub data: Seq<ValueModel>,
}

impl DeepView for Tuple {
    type V = TupleModel;

    open spec fn deep_view(&self) -> TupleModel {
        TupleModel { ty_id: self.ty_id, data: self.data.deep_view() }
    }
}

/// An event.
#[derive(Debug)]
pub struct Event {
    /// The tuple of the event.
    pub tuple: Tuple,
    /// Time of occurrence, in nanoseconds since the Unix epoch.
    pub time: i64,
}

/// What an `Event` holds.
pub struct EventModel {
    pub tuple: TupleModel,
    pub time: i64,
}

impl DeepView for Event {
    type V = EventModel;

    open spec fn deep_view(&self) -> EventModel {
        EventModel { tuple: self.tuple.deep_view(), time: self.time }
    }
}

/// What a listener is interested in.
#[derive(Debug)]
#[allow(inconsistent_fields)]
pub enum SubscrFilter {
    /// Every event.
    Any,
    /// The events of one declaration.
    Topic { ty: usize },
    /// The events of one declaration that satisfy boolean expressions.
    Content { ty: usize, filters: Vec<Expression> },
}

} // verus!
