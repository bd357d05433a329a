//! Numbering and wrapping of outgoing commands.
//!
//! Every command travels in an envelope that carries an identifier, a status,
//! a flag that says whether more parts follow, and the command's content.
//! [`FzRpcProto`] owns a transport and a counter: a command that comes without
//! an identifier gets the counter's value, and the counter moves on by one.
//! Pairing a response with the command it answers is left to the caller.

use vstd::prelude::*;

verus! {

/// The status of a command that is not a report of failure.
pub const COMMAND_STATUS_OK: i32 = 0;

/// The envelope of one command. `C` is the content, which this layer passes
/// on without looking into it.
#[derive(Debug, PartialEq, Eq)]
pub struct Main<C> {
    pub command_id: u32,
    pub command_status: i32,
    pub has_next: bool,
    pub content: Option<C>,
}

/// The identifier of a command sent when the counter stood at `next`.
pub open spec fn assigned_id(next: u32, command_id: Option<u32>) -> u32 {
    match command_id {
        Some(id) => id,
        None => next,
    }
}

/// Where the counter stands after that command: one further, around the end
/// of the 32-bit range, if the counter gave the identifier, and unmoved if
/// the caller did.
pub open spec fn counter_after(next: u32, command_id: Option<u32>) -> u32 {
    match command_id {
        Some(_) => next,
        None => if next == u32::MAX {
            0
        } else {
            (next + 1) as u32
        },
    }
}

/// The envelope of a command sent when the counter stood at `next`.
pub open spec fn envelope<C>(
    next: u32,
    content: C,
    has_next: Option<bool>,
    command_id: Option<u32>,
    command_status: Option<i32>,
) -> Main<C> {
    Main {
        command_id: assigned_id(next, command_id),
        command_status: match command_status {
            Some(status) => status,
            None => COMMAND_STATUS_OK,
        },
        has_next: match has_next {
            Some(flag) => flag,
            None => false,
        },
        content: Some(content),
    }
}

/// The command layer over a transport `T`.
pub struct FzRpcProto<T> {
    transport: T,
    next_command_id: u32,
}

impl<T> FzRpcProto<T> {
    /// The identifier that the next command without one of its own will get.
    pub closed spec fn next_id(&self) -> u32 {
        self.next_command_id
    }

    /// The transport underneath.
    pub closed spec fn inner(&self) -> T {
        self.transport
    }

    /// A command layer over `transport` that has numbered nothing yet.
    pub fn new(transport: T) -> (proto: Self)
        ensures
            proto.next_id() == 0,
            proto.inner() == transport,
    {
        FzRpcProto { transport, next_command_id: 0 }
    }

    /// Takes the counter's value and moves the counter on.
    fn get_command_id(&mut self) -> (id: u32)
        ensures
            id == old(self).next_id(),
            final(self).next_id() == counter_after(old(self).next_id(), None),
            final(self).inner() == old(self).inner(),
    {
        let current = self.next_command_id;
        self.next_command_id = current.wrapping_add(1);
        current
    }

    /// The envelope for `content` as a single command with the status
    /// [`COMMAND_STATUS_OK`], numbered by the counter. The caller encodes the
    /// envelope and writes it to the transport.
    pub fn send<C>(&mut self, content: C) -> (command: Main<C>)
        ensures
            command == envelope(old(self).next_id(), content, None, None, None),
            final(self).next_id() == counter_after(old(self).next_id(), None),
            final(self).inner() == old(self).inner(),
    {
        self.send_advanced(content, None, None, None)
    }

    /// The envelope for `content`. What is given is used as it is: `has_next`
    /// defaults to `false`, `command_status` to [`COMMAND_STATUS_OK`], and
    /// `command_id` to the counter, which moves on only when it was used.
    /// The caller encodes the envelope and writes it to the transport.
    pub fn send_advanced<C>(
        &mut self,
        content: C,
        has_next: Option<bool>,
        command_id: Option<u32>,
        command_status: Option<i32>,
    ) -> (command: Main<C>)
        ensures
            command == envelope(
                old(self).next_id(),
                content,
                has_next,
                command_id,
                command_status,
            ),
            final(self).next_id() == counter_after(old(self).next_id(), command_id),
            final(self).inner() == old(self).inner(),
    {
        let command_id = match command_id {
            Some(id) => id,
            None => self.get_command_id(),
        };
        Main {
            command_id,
            command_status: command_status.unwrap_or(COMMAND_STATUS_OK),
            has_next: has_next.unwrap_or(false),
            content: Some(content),
        }
    }

    /// The transport underneath.
    pub fn transport(&self) -> (transport: &T)
        ensures
            *transport == self.inner(),
    {
        &self.transport
    }
}

impl<T> core::ops::Deref for FzRpcProto<T> {
    type Target = T;

    fn deref(&self) -> (transport: &T)
        ensures
            *transport == self.inner(),
    {
        &self.transport
    }
}

impl<T> core::ops::DerefMut for FzRpcProto<T> {
    fn deref_mut(&mut self) -> (transport: &mut T)
        ensures
            *transport == old(self).inner(),
            final(self).inner() == *final(transport),
            final(self).next_id() == old(self).next_id(),
    {
        &mut self.transport
    }
}

impl<T> core::borrow::Borrow<T> for FzRpcProto<T> {
    fn borrow(&self) -> &T
        returns
            &self.inner(),
    {
        &self.transport
    }
}

impl<T> core::convert::AsRef<T> for FzRpcProto<T> {
    fn as_ref(&self) -> (transport: &T)
        ensures
            *transport == self.inner(),
    {
        &self.transport
    }
}

impl<T> core::convert::AsMut<T> for FzRpcProto<T> {
    fn as_mut(&mut self) -> (transport: &mut T)
        ensures
            *transport == old(self).inner(),
            final(self).inner() == *final(transport),
            final(self).next_id() == old(self).next_id(),
    {
        &mut self.transport
    }
}

impl<T> core::borrow::BorrowMut<T> for FzRpcProto<T> {
    fn borrow_mut(&mut self) -> (transport: &mut T)
        ensures
            *transport === old(self).inner(),
            final(self).inner() == *final(transport),
            final(self).next_id() == old(self).next_id(),
    {
        &mut self.transport
    }
}

impl<T> core::convert::From<T> for FzRpcProto<T> {
    fn from(transport: T) -> (proto: Self)
        ensures
            proto.next_id() == 0,
            proto.inner() == transport,
    {
        FzRpcProto::new(transport)
    }
}

impl<T> vstd::std_specs::convert::FromSpecImpl<T> for FzRpcProto<T> {
    open spec fn obeys_from_spec() -> bool {
        true
    }

    closed spec fn from_spec(transport: T) -> Self {
        FzRpcProto { transport, next_command_id: 0 }
    }
}

/// Where a counter that stood at `start` stands after commands were sent
/// one after another, `commands` saying for each the identifier it was given
/// by the caller, if any.
pub open spec fn counter_after_all(start: u32, commands: Seq<Option<u32>>) -> u32
    decreases commands.len(),
{
    if commands.len() == 0 {
        start
    } else {
        counter_after(counter_after_all(start, commands.drop_last()), commands.last())
    }
}

/// How many of `commands` came without an identifier.
pub open spec fn numbered_by_counter(commands: Seq<Option<u32>>) -> nat
    decreases commands.len(),
{
    if commands.len() == 0 {
        0
    } else {
        numbered_by_counter(commands.drop_last()) + if commands.last() is None {
            1nat
        } else {
            0nat
        }
    }
}

/// A counter that started at zero stands at the number of commands it has
/// numbered, counted within 32 bits.
pub proof fn lemma_counter_counts(commands: Seq<Option<u32>>)
    ensures
        counter_after_all(0, commands) == numbered_by_counter(commands) % 0x1_0000_0000,
    decreases commands.len(),
{
    if commands.len() > 0 {
        lemma_counter_counts(commands.drop_last());
    }
}

/// No identifier given by a caller means every command is counted.
pub proof fn lemma_all_numbered(commands: Seq<Option<u32>>)
    requires
        forall|j: int| 0 <= j < commands.len() ==> commands[j] is None,
    ensures
        numbered_by_counter(commands) == commands.len(),
    decreases commands.len(),
{
    if commands.len() > 0 {
        lemma_all_numbered(commands.drop_last());
    }
}

/// Command id monotonicity. In a run of commands sent through a new
/// [`FzRpcProto`], a command with an identifier of its own keeps it and
/// leaves the counter alone; a command without one gets the number of such
/// commands sent before it, counted within 32 bits. So commands that all come
/// without an identifier are numbered `0`, `1`, `2` and so on.
pub proof fn law_command_ids(commands: Seq<Option<u32>>, i: int)
    requires
        0 <= i < commands.len(),
    ensures
        assigned_id(counter_after_all(0, commands.take(i)), commands[i]) == match commands[i] {
            Some(id) => id,
            None => (numbered_by_counter(commands.take(i)) % 0x1_0000_0000) as u32,
        },
        commands[i] is Some ==> counter_after_all(0, commands.take(i + 1)) == counter_after_all(
            0,
            commands.take(i),
        ),
        (forall|j: int| 0 <= j < i ==> commands[j] is None) ==> numbered_by_counter(
            commands.take(i),
        ) == i,
{
    lemma_counter_counts(commands.take(i));
    assert(commands.take(i + 1).drop_last() =~= commands.take(i));
    if forall|j: int| 0 <= j < i ==> commands[j] is None {
        lemma_all_numbered(commands.take(i));
    }
}

} // verus!
