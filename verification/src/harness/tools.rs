//! What a tool call is given, and what it tells while it runs.

use crate::message::share;
use std::collections::HashMap;
use std::sync::Arc;
use vstd::prelude::*;
use vstd::std_specs::hash::*;

verus! {

broadcast use vstd::std_specs::hash::group_hash_axioms;

/// `serde_json::Value`: a JSON value, which is carried through as it is.
#[verifier::external_type_specification]
#[verifier::external_body]
pub struct ExValue(serde_json::Value);

/// Whether calls of a tool may run side by side.
#[derive(Debug, Clone, Copy, PartialEq, Eq, Structural)]
pub enum ToolExecutionPolicy {
    Serial,
    Parallel,
}

/// What the host offers to tools, each under a key of its own.
#[derive(Debug)]
pub struct ToolSlots<V> {
    pub values: HashMap<u64, Arc<V>>,
}

impl<V> View for ToolSlots<V> {
    type V = Map<u64, Arc<V>>;

    open spec fn view(&self) -> Map<u64, Arc<V>> {
        self.values@
    }
}

/// Slots of their own, with the same values.
impl<V> Clone for ToolSlots<V> {
    fn clone(&self) -> (slots: ToolSlots<V>)
        ensures
            slots@ == self@,
    {
        ToolSlots { values: self.values.clone() }
    }
}

impl<V> Default for ToolSlots<V> {
    fn default() -> (slots: ToolSlots<V>)
        ensures
            slots@ == Map::<u64, Arc<V>>::empty(),
    {
        ToolSlots::new()
    }
}

impl<V> ToolSlots<V> {
    pub fn new() -> (slots: ToolSlots<V>)
        ensures
            slots@ == Map::<u64, Arc<V>>::empty(),
    {
        ToolSlots { values: HashMap::new() }
    }

    /// The slots with one more value, in place of the one that its key had.
    pub fn with(self, key: u64, value: V) -> (slots: ToolSlots<V>)
        ensures
            slots@ == self@.insert(key, Arc::new(value)),
    {
        let mut slots = self;
        slots.insert(key, value);
        slots
    }

    pub fn insert(&mut self, key: u64, value: V)
        ensures
            final(self)@ == old(self)@.insert(key, Arc::new(value)),
    {
        self.values.insert(key, Arc::new(value));
    }

    pub fn get(&self, key: u64) -> (value: Option<Arc<V>>)
        ensures
            match value {
                Some(value) => self@.contains_key(key) && value == self@[key],
                None => !self@.contains_key(key),
            },
    {
        match self.values.get(&key) {
            Some(value) => Some(share(value)),
            None => None,
        }
    }
}

/// What was put into a slot last is found there, and the other slots keep what they have.
pub proof fn law_slot_holds_last_value<V>(
    slots: Map<u64, Arc<V>>,
    key: u64,
    first: Arc<V>,
    second: Arc<V>,
    other: u64,
)
    requires
        other != key,
    ensures
        slots.insert(key, first).insert(key, second)[key] == second,
        slots.insert(key, first).contains_key(other) == slots.contains_key(other),
        slots.contains_key(other) ==> slots.insert(key, first)[other] == slots[other],
{
}

/// A value that is put into slots after they have been cloned is found in them, and not in the clone:
/// under every key the clone holds what the slots held when it was made.
pub proof fn law_clone_keeps_its_values<V>(
    slots: Map<u64, Arc<V>>,
    clone: Map<u64, Arc<V>>,
    key: u64,
    value: Arc<V>,
    any: u64,
)
    requires
        clone == slots,
    ensures
        slots.insert(key, value)[key] == value,
        clone.contains_key(any) == slots.contains_key(any),
        slots.contains_key(any) ==> clone[any] == slots[any],
        !slots.contains_key(key) ==> slots.insert(key, value) != clone,
{
    if !slots.contains_key(key) {
        assert(slots.insert(key, value).contains_key(key));
    }
}

/// What a tool tells while it runs.
#[derive(Debug)]
pub struct ToolUpdate {
    pub call_id: String,
    pub tool_name: String,
    pub sequence: u64,
    pub kind: String,
    pub payload: serde_json::Value,
}

/// What a tool tells, before it is known which call it belongs to.
#[derive(Debug)]
pub struct ToolUpdateParts {
    pub kind: String,
    pub payload: serde_json::Value,
}

impl ToolUpdateParts {
    pub fn new(kind: String, payload: serde_json::Value) -> (parts: ToolUpdateParts)
        ensures
            parts.kind == kind,
            parts.payload == payload,
    {
        ToolUpdateParts { kind, payload }
    }

    /// The update of a call, with its place in the sequence of what the call tells.
    pub fn into_update(self, context: &ToolContext, sequence: u64) -> (update: ToolUpdate)
        ensures
            update.call_id@ == context.call_id@,
            update.tool_name@ == context.tool_name@,
            update.sequence == sequence,
            update.kind == self.kind,
            update.payload == self.payload,
    {
        ToolUpdate {
            call_id: context.call_id.clone(),
            tool_name: context.tool_name.clone(),
            sequence,
            kind: self.kind,
            payload: self.payload,
        }
    }
}

/// Something that a tool tells, of a kind of its own.
pub trait ToolUpdatePayload {
    spec fn spec_kind(&self) -> Seq<char>;

    fn kind(&self) -> (kind: &'static str)
        ensures
            kind@ == self.spec_kind(),
    ;
}

/// The call that a tool runs for.
#[derive(Debug)]
pub struct ToolContext {
    pub call_id: String,
    pub tool_name: String,
    /// Whether anybody listens to what the tool tells.
    pub listening: bool,
    pub sequence: u64,
}

impl ToolContext {
    pub fn new(call_id: String, tool_name: String, listening: bool) -> (context: ToolContext)
        ensures
            context == (ToolContext { call_id, tool_name, listening, sequence: 0 }),
    {
        ToolContext { call_id, tool_name, listening, sequence: 0 }
    }

    /// What has to be passed on of what the tool tells: all, in sequence, while somebody listens.
    pub fn emit(&mut self, parts: ToolUpdateParts) -> (update: Option<ToolUpdate>)
        ensures
            final(self).call_id == old(self).call_id,
            final(self).tool_name == old(self).tool_name,
            final(self).listening == old(self).listening,
            final(self).sequence == (if old(self).listening {
                old(self).sequence.wrapping_add(1)
            } else {
                old(self).sequence
            }),
            match update {
                Some(update) => {
                    &&& old(self).listening
                    &&& update.call_id@ == old(self).call_id@
                    &&& update.tool_name@ == old(self).tool_name@
                    &&& update.sequence == old(self).sequence
                    &&& update.kind == parts.kind
                    &&& update.payload == parts.payload
                },
                None => !old(self).listening,
            },
    {
        if !self.listening {
            return None;
        }
        let update = parts.into_update(self, self.sequence);
        self.sequence = self.sequence.wrapping_add(1);
        Some(update)
    }
}

/// Makes a tool out of a name, a description and what handles its calls.
#[derive(Debug)]
pub struct ToolBuilder<F> {
    pub name: String,
    pub description: String,
    pub handler: F,
    pub execution_policy: ToolExecutionPolicy,
}

/// A tool that a function handles.
#[derive(Debug)]
pub struct FnTool<F> {
    pub name: String,
    pub description: String,
    pub execution_policy: ToolExecutionPolicy,
    pub handler: F,
}

impl<F> ToolBuilder<F> {
    pub fn new(name: String, description: String, handler: F) -> (builder: ToolBuilder<F>)
        ensures
            builder == (ToolBuilder {
                name,
                description,
                handler,
                execution_policy: ToolExecutionPolicy::Serial,
            }),
    {
        ToolBuilder { name, description, handler, execution_policy: ToolExecutionPolicy::Serial }
    }

    pub fn policy(self, execution_policy: ToolExecutionPolicy) -> (builder: ToolBuilder<F>)
        ensures
            builder == (ToolBuilder { execution_policy, ..self }),
    {
        ToolBuilder { execution_policy, ..self }
    }

    pub fn build(self) -> (tool: FnTool<F>)
        ensures
            tool == (FnTool {
                name: self.name,
                description: self.description,
                execution_policy: self.execution_policy,
                handler: self.handler,
            }),
    {
        FnTool {
            name: self.name,
            description: self.description,
            execution_policy: self.execution_policy,
            handler: self.handler,
        }
    }
}

impl<F> FnTool<F> {
    pub fn new(name: String, description: String, handler: F) -> (tool: FnTool<F>)
        ensures
            tool == (FnTool {
                name,
                description,
                execution_policy: ToolExecutionPolicy::Serial,
                handler,
            }),
    {
        FnTool { name, description, execution_policy: ToolExecutionPolicy::Serial, handler }
    }

    pub fn with_execution_policy(self, execution_policy: ToolExecutionPolicy) -> (tool: FnTool<F>)
        ensures
            tool == (FnTool { execution_policy, ..self }),
    {
        FnTool { execution_policy, ..self }
    }
}

} // verus!
