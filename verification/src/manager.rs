//! The connection manager: listeners, connection slots, and the routing of
//! readiness to them.
//!
//! The manager keeps the books; its caller owns the sockets, performs the
//! system calls and reports what came of them.

use crate::connection::{poll_step, ConnectionEvent, ConnectionInput, ConnectionState, MioConnection, Received};
use crate::error::ErrorKind;
use crate::fd::Errno;
use crate::registry::{
    dispensed, lookup, next_after, registration, unused_after, AppServer, AppServerIoSource,
    RegistryError, Token,
};
use vstd::prelude::*;

verus! {

/// Points at a source of readiness events inside a [`MioManager`].
#[derive(Clone, Copy, Debug, PartialEq, Eq, Structural)]
pub enum MioManagerIoSource {
    /// The listener at this index.
    Listener(usize),
    /// The connection in the slot at this index.
    Connection(usize),
}

/// A listening socket, as the manager knows it: by its token.
#[derive(Debug)]
pub struct MioListener {
    token: Token,
}

impl MioListener {
    /// The token under which the socket is registered.
    pub closed spec fn spec_token(&self) -> Token {
        self.token
    }

    /// A listener for a socket that is about to be registered, under a token
    /// of its own; none once the tokens have run out. The caller registers
    /// the socket for reading and writing under that token.
    pub fn new(server: &mut AppServer) -> (listener: Option<MioListener>)
        requires
            old(server).wf(),
        ensures
            final(server).wf(),
            final(server).sources() == old(server).sources(),
            final(server).spec_limits() == old(server).spec_limits(),
            final(server).next_token() == next_after(old(server).next_token()),
            final(server).unused() == unused_after(old(server).unused(), old(server).next_token()),
            listener.is_some() == dispensed(old(server).next_token()).is_some(),
            listener matches Some(l) ==> Some(l.spec_token()) == dispensed(
                old(server).next_token(),
            ),
    {
        match server.dispense_token() {
            None => None,
            Some(token) => Some(MioListener { token }),
        }
    }

    pub fn mio_token(&self) -> (token: Token)
        ensures
            token == self.spec_token(),
    {
        self.token
    }
}

/// The listeners and the connection slots of the control plane.
///
/// A listener keeps its index for good. A connection keeps the index of its
/// slot until it is removed; the slot may then be given to another.
#[derive(Debug)]
pub struct MioManager {
    listeners: Vec<MioListener>,
    connections: Vec<Option<MioConnection>>,
}

/// The token of the connection in a slot.
pub open spec fn slot_token(slot: Option<MioConnection>) -> Option<Token> {
    match slot {
        Some(c) => Some(c.spec_token()),
        None => None,
    }
}

impl MioManager {
    /// The listeners, by index.
    pub closed spec fn listeners(&self) -> Seq<MioListener> {
        self.listeners@
    }

    /// The connection slots, by index.
    pub closed spec fn slots(&self) -> Seq<Option<MioConnection>> {
        self.connections@
    }

    /// The tokens of the listeners, by index.
    pub open spec fn listener_tokens(&self) -> Seq<Token> {
        self.listeners().map_values(|l: MioListener| l.spec_token())
    }

    /// The tokens of the connections, by slot.
    pub open spec fn slot_tokens(&self) -> Seq<Option<Token>> {
        self.slots().map_values(|slot: Option<MioConnection>| slot_token(slot))
    }

    /// Every connection is well-formed.
    pub open spec fn wf(&self) -> bool {
        forall|j: int|
            0 <= j < self.slots().len() ==> (#[trigger] self.slots()[j] matches Some(c) ==> c.wf())
    }

    /// A manager with no listener and no slot.
    pub fn new() -> (manager: MioManager)
        ensures
            manager.listeners().len() == 0,
            manager.slots().len() == 0,
            manager.wf(),
    {
        MioManager { listeners: Vec::new(), connections: Vec::new() }
    }

    pub fn listener_count(&self) -> (count: usize)
        ensures
            count == self.listeners().len(),
    {
        self.listeners.len()
    }

    /// The number of slots, empty ones included.
    pub fn slot_count(&self) -> (count: usize)
        ensures
            count == self.slots().len(),
    {
        self.connections.len()
    }

    /// The token of the listener at `idx`.
    pub fn listener_token(&self, idx: usize) -> (token: Option<Token>)
        ensures
            token == if idx < self.listeners().len() {
                Some(self.listeners()[idx as int].spec_token())
            } else {
                None
            },
    {
        if idx < self.listeners.len() {
            Some(self.listeners[idx].mio_token())
        } else {
            None
        }
    }

    /// The connection in the slot at `idx`.
    pub fn connection(&self, idx: usize) -> (connection: Option<&MioConnection>)
        ensures
            connection == if idx < self.slots().len() {
                match self.slots()[idx as int] {
                    Some(c) => Some(&c),
                    None => None,
                }
            } else {
                None
            },
    {
        if idx < self.connections.len() {
            match &self.connections[idx] {
                Some(c) => Some(c),
                None => None,
            }
        } else {
            None
        }
    }

    /// The index of the lowest empty slot; the number of slots if none is
    /// empty.
    fn lowest_free(&self) -> (idx: usize)
        ensures
            idx as nat == first_free(self.slot_tokens()),
            idx <= self.slots().len(),
    {
        let mut i: usize = 0;
        while i < self.connections.len()
            invariant
                i <= self.connections@.len(),
                free_from(self.slot_tokens(), 0) == free_from(self.slot_tokens(), i as nat),
                forall|k: int| 0 <= k < i ==> self.slot_tokens()[k].is_some(),
            decreases self.connections@.len() - i,
        {
            if self.connections[i].is_none() {
                return i;
            }
            i = i + 1;
        }
        i
    }

    /// The source of the first connection from the slot at `from` on.
    fn occupied_from(&self, from: usize) -> (next: Option<MioManagerIoSource>)
        ensures
            next == next_occupied(self.slot_tokens(), from as nat),
    {
        let mut i: usize = from;
        while i < self.connections.len()
            invariant
                from <= i,
                next_occupied(self.slot_tokens(), from as nat) == next_occupied(
                    self.slot_tokens(),
                    i as nat,
                ),
            decreases self.connections@.len() - i,
        {
            if self.connections[i].is_some() {
                return Some(MioManagerIoSource::Connection(i));
            }
            i = i + 1;
        }
        None
    }

    /// Puts `connection` into the slot at `idx`, or behind the last slot.
    fn place(&mut self, idx: usize, connection: MioConnection)
        requires
            idx <= old(self).slots().len(),
        ensures
            final(self).listeners() == old(self).listeners(),
            final(self).slots() == placed(old(self).slots(), idx as nat, Some(connection)),
    {
        if idx < self.connections.len() {
            self.connections[idx] = Some(connection);
        } else {
            self.connections.push(Some(connection));
        }
    }

    /// Empties the slot at `idx` and gives what was in it.
    fn vacate(&mut self, idx: usize) -> (connection: Option<MioConnection>)
        requires
            idx < old(self).slots().len(),
        ensures
            final(self).listeners() == old(self).listeners(),
            final(self).slots() == old(self).slots().update(idx as int, None),
            connection == old(self).slots()[idx as int],
    {
        let mut slot: Option<MioConnection> = None;
        core::mem::swap(&mut slot, &mut self.connections[idx]);
        slot
    }
}

impl Default for MioManager {
    fn default() -> (manager: MioManager)
        ensures
            manager.listeners().len() == 0,
            manager.slots().len() == 0,
            manager.wf(),
    {
        MioManager::new()
    }
}

/// The index of the first empty slot from `start` on; the number of slots
/// if there is none.
pub open spec fn free_from(slots: Seq<Option<Token>>, start: nat) -> nat
    decreases slots.len() - start,
{
    if start >= slots.len() {
        slots.len()
    } else if slots[start as int].is_none() {
        start
    } else {
        free_from(slots, start + 1)
    }
}

/// The index of the lowest empty slot; the number of slots if none is empty.
pub open spec fn first_free(slots: Seq<Option<Token>>) -> nat {
    free_from(slots, 0)
}

/// The slots with `slot` at `idx`: in place of what was there, or behind the
/// last slot.
pub open spec fn placed<T>(slots: Seq<T>, idx: nat, slot: T) -> Seq<T> {
    if idx < slots.len() {
        slots.update(idx as int, slot)
    } else {
        slots.push(slot)
    }
}

/// The lowest empty slot is empty, and every slot below it is taken.
pub proof fn lemma_first_free(slots: Seq<Option<Token>>, start: nat)
    requires
        start <= slots.len(),
    ensures
        start <= free_from(slots, start) <= slots.len(),
        free_from(slots, start) < slots.len() ==> slots[free_from(slots, start) as int].is_none(),
        forall|k: int| start <= k < free_from(slots, start) ==> (#[trigger] slots[k]).is_some(),
    decreases slots.len() - start,
{
    if start < slots.len() && slots[start as int].is_some() {
        lemma_first_free(slots, start + 1);
    }
}

/// The books of the control plane as the contracts see them: which tokens
/// have been handed out, where the readiness of each registered token goes,
/// and which token each listener and each slot holds.
pub struct ControlView {
    /// Every token below this number has been handed out, and no other.
    pub next_token: nat,
    /// The tokens that were handed out and have named no source yet. A token
    /// that was handed out and is neither here nor in `sources` is retired.
    pub unused: Set<usize>,
    pub sources: Map<usize, AppServerIoSource>,
    pub listeners: Seq<Token>,
    pub slots: Seq<Option<Token>>,
}

/// The books that a manager and an application server keep between them.
pub open spec fn control_view(manager: MioManager, server: AppServer) -> ControlView {
    ControlView {
        next_token: server.next_token(),
        unused: server.unused(),
        sources: server.sources(),
        listeners: manager.listener_tokens(),
        slots: manager.slot_tokens(),
    }
}

/// The source of a listener.
pub open spec fn listener_source(idx: usize) -> AppServerIoSource {
    AppServerIoSource::MioManager(MioManagerIoSource::Listener(idx))
}

/// The source of a connection.
pub open spec fn connection_source(idx: usize) -> AppServerIoSource {
    AppServerIoSource::MioManager(MioManagerIoSource::Connection(idx))
}

/// The listener or the slot that a registered token names holds that token.
pub open spec fn points_back(v: ControlView, t: usize) -> bool {
    match v.sources[t] {
        AppServerIoSource::MioManager(MioManagerIoSource::Listener(i)) => i < v.listeners.len()
            && v.listeners[i as int] == Token(t),
        AppServerIoSource::MioManager(MioManagerIoSource::Connection(j)) => j < v.slots.len()
            && v.slots[j as int] == Some(Token(t)),
    }
}

/// The books are in order: only tokens that were handed out are registered
/// or unused, and none is both; the token of every listener and of every
/// connection is registered, and names that listener or that connection; and
/// every registered token names a listener or a connection that holds it. So
/// each live source has exactly one token, and each registered token exactly
/// one live source.
pub open spec fn control_inv(v: ControlView) -> bool {
    &&& v.listeners.len() <= usize::MAX
    &&& v.slots.len() <= usize::MAX
    &&& forall|t: usize| #[trigger]
        v.sources.contains_key(t) ==> (t as nat) < v.next_token && !v.unused.contains(t)
    &&& forall|t: usize| #[trigger] v.unused.contains(t) ==> (t as nat) < v.next_token
    &&& forall|i: usize|
        i < v.listeners.len() ==> lookup(v.sources, #[trigger] v.listeners[i as int]) == Some(
            listener_source(i),
        )
    &&& forall|j: usize|
        j < v.slots.len() ==> ((#[trigger] v.slots[j as int]) matches Some(t) ==> lookup(
            v.sources,
            t,
        ) == Some(connection_source(j)))
    &&& forall|t: usize| #[trigger] v.sources.contains_key(t) ==> points_back(v, t)
}

/// What can happen to the books.
pub enum ControlOp {
    /// A token is handed out.
    Dispense,
    /// A listener that holds this token is added.
    AddListener(Token),
    /// A connection that holds this token is added.
    AddConnection(Token),
    /// The connection in this slot is removed.
    Close(usize),
}

/// Whether `token` may be registered now: it was handed out and has named
/// no source yet.
pub open spec fn registrable(v: ControlView, token: Token) -> bool {
    registration(v.sources, v.unused, v.next_token, token).is_ok()
}

/// The books after `op`. A listener or a connection whose token may not be
/// registered, or for which no index is left, is not added; removing from a
/// slot that is empty or does not exist changes nothing.
pub open spec fn control_apply(v: ControlView, op: ControlOp) -> ControlView {
    match op {
        ControlOp::Dispense => ControlView {
            next_token: next_after(v.next_token),
            unused: unused_after(v.unused, v.next_token),
            ..v
        },
        ControlOp::AddListener(token) => if registrable(v, token) && v.listeners.len()
            < usize::MAX {
            ControlView {
                sources: v.sources.insert(token.0, listener_source(v.listeners.len() as usize)),
                unused: v.unused.remove(token.0),
                listeners: v.listeners.push(token),
                ..v
            }
        } else {
            v
        },
        ControlOp::AddConnection(token) => if registrable(v, token) && first_free(v.slots)
            < usize::MAX {
            ControlView {
                sources: v.sources.insert(token.0, connection_source(first_free(v.slots) as usize)),
                unused: v.unused.remove(token.0),
                slots: placed(v.slots, first_free(v.slots), Some(token)),
                ..v
            }
        } else {
            v
        },
        ControlOp::Close(idx) => if idx < v.slots.len() && v.slots[idx as int].is_some() {
            ControlView {
                sources: v.sources.remove(v.slots[idx as int].unwrap().0),
                slots: v.slots.update(idx as int, None),
                ..v
            }
        } else {
            v
        },
    }
}

/// The token that `op` hands out, if it hands one out.
pub open spec fn control_issue(v: ControlView, op: ControlOp) -> Option<Token> {
    if op is Dispense {
        dispensed(v.next_token)
    } else {
        None
    }
}

/// The token that `op` registers, if it registers one.
pub open spec fn control_register(v: ControlView, op: ControlOp) -> Option<Token> {
    match op {
        ControlOp::AddListener(token) => if registrable(v, token) && v.listeners.len()
            < usize::MAX {
            Some(token)
        } else {
            None
        },
        ControlOp::AddConnection(token) => if registrable(v, token) && first_free(v.slots)
            < usize::MAX {
            Some(token)
        } else {
            None
        },
        _ => None,
    }
}

/// The books after a sequence of operations.
pub open spec fn control_run(v: ControlView, ops: Seq<ControlOp>) -> ControlView
    decreases ops.len(),
{
    if ops.len() == 0 {
        v
    } else {
        control_run(control_apply(v, ops[0]), ops.drop_first())
    }
}

/// The tokens that a sequence of operations hands out, in order.
pub open spec fn control_issued(v: ControlView, ops: Seq<ControlOp>) -> Seq<Token>
    decreases ops.len(),
{
    if ops.len() == 0 {
        Seq::empty()
    } else {
        let rest = control_issued(control_apply(v, ops[0]), ops.drop_first());
        match control_issue(v, ops[0]) {
            Some(token) => seq![token] + rest,
            None => rest,
        }
    }
}

/// The tokens that a sequence of operations registers, in order.
pub open spec fn control_registered(v: ControlView, ops: Seq<ControlOp>) -> Seq<Token>
    decreases ops.len(),
{
    if ops.len() == 0 {
        Seq::empty()
    } else {
        let rest = control_registered(control_apply(v, ops[0]), ops.drop_first());
        match control_register(v, ops[0]) {
            Some(token) => seq![token] + rest,
            None => rest,
        }
    }
}

/// Every operation keeps the books in order.
pub proof fn lemma_apply_keeps_order(v: ControlView, op: ControlOp)
    requires
        control_inv(v),
    ensures
        control_inv(control_apply(v, op)),
{
    let w = control_apply(v, op);
    match op {
        ControlOp::Dispense => {
            assert forall|t: usize| #[trigger] w.sources.contains_key(t) implies points_back(
                w,
                t,
            ) by {
                assert(points_back(v, t));
            }
        },
        ControlOp::AddListener(token) => {
            if registrable(v, token) && v.listeners.len() < usize::MAX {
                let n = v.listeners.len() as usize;
                assert forall|i: usize| i < w.listeners.len() implies lookup(
                    w.sources,
                    #[trigger] w.listeners[i as int],
                ) == Some(listener_source(i)) by {
                    if i < n {
                        assert(lookup(v.sources, v.listeners[i as int]) == Some(
                            listener_source(i),
                        ));
                    }
                }
                assert forall|j: usize| j < w.slots.len() implies ((
                #[trigger] w.slots[j as int]) matches Some(t) ==> lookup(w.sources, t) == Some(
                    connection_source(j),
                )) by {
                    if let Some(t) = v.slots[j as int] {
                        assert(lookup(v.sources, t) == Some(connection_source(j)));
                    }
                }
                assert forall|t: usize| #[trigger] w.sources.contains_key(t) implies points_back(
                    w,
                    t,
                ) by {
                    if t != token.0 {
                        assert(v.sources.contains_key(t));
                        assert(points_back(v, t));
                    }
                }
            }
        },
        ControlOp::AddConnection(token) => {
            if registrable(v, token) && first_free(v.slots) < usize::MAX {
                lemma_first_free(v.slots, 0);
                let n = first_free(v.slots) as usize;
                assert forall|i: usize| i < w.listeners.len() implies lookup(
                    w.sources,
                    #[trigger] w.listeners[i as int],
                ) == Some(listener_source(i)) by {
                    assert(lookup(v.sources, v.listeners[i as int]) == Some(listener_source(i)));
                }
                assert forall|j: usize| j < w.slots.len() implies ((
                #[trigger] w.slots[j as int]) matches Some(t) ==> lookup(w.sources, t) == Some(
                    connection_source(j),
                )) by {
                    if j != n {
                        if let Some(t) = v.slots[j as int] {
                            assert(lookup(v.sources, t) == Some(connection_source(j)));
                        }
                    }
                }
                assert forall|t: usize| #[trigger] w.sources.contains_key(t) implies points_back(
                    w,
                    t,
                ) by {
                    if t != token.0 {
                        assert(v.sources.contains_key(t));
                        assert(points_back(v, t));
                    }
                }
            }
        },
        ControlOp::Close(idx) => {
            if idx < v.slots.len() && v.slots[idx as int].is_some() {
                let gone = v.slots[idx as int].unwrap();
                assert(lookup(v.sources, gone) == Some(connection_source(idx)));
                assert forall|i: usize| i < w.listeners.len() implies lookup(
                    w.sources,
                    #[trigger] w.listeners[i as int],
                ) == Some(listener_source(i)) by {
                    assert(lookup(v.sources, v.listeners[i as int]) == Some(listener_source(i)));
                }
                assert forall|j: usize| j < w.slots.len() implies ((
                #[trigger] w.slots[j as int]) matches Some(t) ==> lookup(w.sources, t) == Some(
                    connection_source(j),
                )) by {
                    if j != idx {
                        if let Some(t) = v.slots[j as int] {
                            assert(lookup(v.sources, t) == Some(connection_source(j)));
                        }
                    }
                }
                assert forall|t: usize| #[trigger] w.sources.contains_key(t) implies points_back(
                    w,
                    t,
                ) by {
                    assert(v.sources.contains_key(t));
                    assert(points_back(v, t));
                }
            }
        },
    }
}

/// Token uniqueness: whatever is added and removed, in whatever order, the
/// books stay in order, so that every registered token names exactly one
/// live source and every live source has exactly one token.
pub proof fn lemma_books_stay_in_order(v: ControlView, ops: Seq<ControlOp>)
    requires
        control_inv(v),
    ensures
        control_inv(control_run(v, ops)),
    decreases ops.len(),
{
    if ops.len() > 0 {
        lemma_apply_keeps_order(v, ops[0]);
        lemma_books_stay_in_order(control_apply(v, ops[0]), ops.drop_first());
    }
}

/// No token is handed out twice: the tokens that a sequence of operations
/// hands out are new, and each is greater than those before it.
pub proof fn lemma_tokens_never_reused(v: ControlView, ops: Seq<ControlOp>)
    ensures
        forall|a: int|
            0 <= a < control_issued(v, ops).len() ==> v.next_token <= (#[trigger] control_issued(
                v,
                ops,
            )[a]).0 < control_run(v, ops).next_token,
        forall|a: int, b: int|
            0 <= a < b < control_issued(v, ops).len() ==> (#[trigger] control_issued(v, ops)[a]).0
                < (#[trigger] control_issued(v, ops)[b]).0,
        v.next_token <= control_run(v, ops).next_token,
    decreases ops.len(),
{
    if ops.len() > 0 {
        let w = control_apply(v, ops[0]);
        let rest = control_issued(w, ops.drop_first());
        lemma_tokens_never_reused(w, ops.drop_first());
        let all = control_issued(v, ops);
        match control_issue(v, ops[0]) {
            Some(token) => {
                assert(all =~= seq![token] + rest);
                assert forall|a: int| 0 <= a < all.len() implies v.next_token <= (#[trigger] all[a]).0
                    < control_run(v, ops).next_token by {
                    if a > 0 {
                        assert(all[a] == rest[a - 1]);
                    }
                }
                assert forall|a: int, b: int| 0 <= a < b < all.len() implies (#[trigger] all[a]).0
                    < (#[trigger] all[b]).0 by {
                    assert(all[b] == rest[b - 1]);
                    if a > 0 {
                        assert(all[a] == rest[a - 1]);
                    }
                }
            },
            None => {
                assert(all =~= rest);
            },
        }
    }
}

/// A token serves once: every token that a sequence of operations registers
/// was unused, or not handed out yet, when the sequence began, and none is
/// registered twice. So a token that has named a source, and was removed
/// with it, names no source again.
pub proof fn lemma_tokens_register_once(v: ControlView, ops: Seq<ControlOp>)
    ensures
        forall|a: int|
            0 <= a < control_registered(v, ops).len() ==> v.unused.contains(
                (#[trigger] control_registered(v, ops)[a]).0,
            ) || control_registered(v, ops)[a].0 >= v.next_token,
        forall|a: int, b: int|
            0 <= a < b < control_registered(v, ops).len() ==> #[trigger] control_registered(
                v,
                ops,
            )[a] != #[trigger] control_registered(v, ops)[b],
    decreases ops.len(),
{
    if ops.len() > 0 {
        let w = control_apply(v, ops[0]);
        let rest = control_registered(w, ops.drop_first());
        lemma_tokens_register_once(w, ops.drop_first());
        let all = control_registered(v, ops);
        assert forall|a: int| 0 <= a < rest.len() implies v.unused.contains(
            (#[trigger] rest[a]).0,
        ) || rest[a].0 >= v.next_token by {
            if w.unused.contains(rest[a].0) && rest[a].0 as nat != v.next_token {
                assert(v.unused.contains(rest[a].0));
            }
        }
        match control_register(v, ops[0]) {
            Some(token) => {
                assert(all =~= seq![token] + rest);
                assert(!w.unused.contains(token.0) && (token.0 as nat) < w.next_token);
                assert forall|a: int| 0 <= a < all.len() implies v.unused.contains(
                    (#[trigger] all[a]).0,
                ) || all[a].0 >= v.next_token by {
                    if a > 0 {
                        assert(all[a] == rest[a - 1]);
                    }
                }
                assert forall|a: int, b: int| 0 <= a < b < all.len() implies #[trigger] all[a]
                    != #[trigger] all[b] by {
                    assert(all[b] == rest[b - 1]);
                    if a > 0 {
                        assert(all[a] == rest[a - 1]);
                    }
                }
            },
            None => {
                assert(all =~= rest);
            },
        }
    }
}

/// A token that was handed out and is not unused stays so: whatever is
/// added and removed afterwards, it is refused.
pub proof fn lemma_spent_token_is_refused(v: ControlView, ops: Seq<ControlOp>, token: Token)
    requires
        (token.0 as nat) < v.next_token,
        !v.unused.contains(token.0),
    ensures
        !registrable(control_run(v, ops), token),
        !control_run(v, ops).unused.contains(token.0),
    decreases ops.len(),
{
    if ops.len() > 0 {
        lemma_spent_token_is_refused(control_apply(v, ops[0]), ops.drop_first(), token);
    }
}

/// Slot stability: a connection keeps its index for as long as it is not
/// removed.
pub proof fn lemma_slot_is_stable(v: ControlView, ops: Seq<ControlOp>, idx: usize, token: Token)
    requires
        idx < v.slots.len(),
        v.slots[idx as int] == Some(token),
        forall|k: int| 0 <= k < ops.len() ==> ops[k] != ControlOp::Close(idx),
    ensures
        idx < control_run(v, ops).slots.len(),
        control_run(v, ops).slots[idx as int] == Some(token),
    decreases ops.len(),
{
    if ops.len() > 0 {
        let w = control_apply(v, ops[0]);
        assert(ops[0] != ControlOp::Close(idx));
        if ops[0] is AddConnection {
            lemma_first_free(v.slots, 0);
        }
        assert forall|k: int| 0 <= k < ops.drop_first().len() implies ops.drop_first()[k]
            != ControlOp::Close(idx) by {
            assert(ops.drop_first()[k] == ops[k + 1]);
        }
        lemma_slot_is_stable(w, ops.drop_first(), idx, token);
    }
}

/// Why the manager did not do what it was asked.
#[derive(Clone, Copy, Debug, PartialEq, Eq, Structural)]
pub enum ManagerError {
    /// No index is left for another listener or slot.
    Full,
    /// The token of the listener or connection could not be registered.
    Registry(RegistryError),
    /// A system call failed; the error is handed on.
    Io(Errno),
    /// There is no listener at that index.
    UnknownListener,
    /// The event is not one that the source can have.
    UnexpectedEvent,
}

/// What came of one non-blocking `accept` on a listener.
#[derive(Debug)]
pub enum AcceptEvent {
    /// A stream was accepted; this is the connection made for it.
    Accepted(MioConnection),
    /// Nothing is waiting to be accepted.
    WouldBlock,
    /// The system call was interrupted.
    Interrupted,
    /// The system call failed with another error.
    Failed(Errno),
}

/// What the caller reports for a source of the manager.
#[derive(Debug)]
pub enum ManagerEvent {
    /// For a listener.
    Accept(AcceptEvent),
    /// For a connection.
    Connection(ConnectionEvent),
}

/// What the manager did about an event, and what the caller does next.
#[derive(Debug)]
pub enum PollOutcome {
    /// The source does not exist any more; the event was dropped.
    Ignored,
    /// The accepted connection stands in the slot at `index`. Accept again.
    Accepted { index: usize },
    /// Nothing more to accept now. Come back on readiness.
    Yield,
    /// Accept again.
    Retry,
    /// The connection took the event and stays.
    Progress(Received),
    /// The connection was removed: its slot is empty and its token names no
    /// source. Run the close hook of its stream, and log what that reports.
    Closed { token: Token, reason: ErrorKind },
}

/// The manager and the server are well-formed, and their books are in order.
pub open spec fn linked(manager: MioManager, server: AppServer) -> bool {
    &&& manager.wf()
    &&& server.wf()
    &&& control_inv(control_view(manager, server))
}

/// The outcome of adding a listener that holds `token`.
pub open spec fn listener_outcome(v: ControlView, token: Token) -> Result<usize, ManagerError> {
    if v.listeners.len() >= usize::MAX {
        Err(ManagerError::Full)
    } else if let Err(e) = registration(v.sources, v.unused, v.next_token, token) {
        Err(ManagerError::Registry(e))
    } else {
        Ok(v.listeners.len() as usize)
    }
}

/// The outcome of adding a connection that holds `token`.
pub open spec fn connection_outcome(v: ControlView, token: Token) -> Result<usize, ManagerError> {
    if first_free(v.slots) >= usize::MAX {
        Err(ManagerError::Full)
    } else if let Err(e) = registration(v.sources, v.unused, v.next_token, token) {
        Err(ManagerError::Registry(e))
    } else {
        Ok(first_free(v.slots) as usize)
    }
}

/// What adding `connection` does: it goes into the lowest empty slot, or
/// behind the last slot if none is empty, under the source of that slot, and
/// no other slot is touched. If it cannot be added, nothing changes.
pub open spec fn connection_added(
    m0: MioManager,
    s0: AppServer,
    connection: MioConnection,
    m1: MioManager,
    s1: AppServer,
    added: Result<usize, ManagerError>,
) -> bool {
    let v0 = control_view(m0, s0);
    &&& added == connection_outcome(v0, connection.spec_token())
    &&& control_view(m1, s1) == control_apply(
        v0,
        ControlOp::AddConnection(connection.spec_token()),
    )
    &&& m1.listeners() == m0.listeners()
    &&& s1.spec_limits() == s0.spec_limits()
    &&& match added {
        Ok(idx) => m1.slots() == placed(m0.slots(), idx as nat, Some(connection)),
        Err(_) => m1.slots() == m0.slots(),
    }
}

/// What one event does to the connection in the slot at `idx`.
///
/// An event for a slot that is empty or does not exist is dropped. The error
/// of a failed system call is handed on, and the connection stays as it is.
/// Otherwise the connection takes the event; if that leaves it closing, it is
/// removed, slot and token at once. No other slot is touched.
pub open spec fn connection_polled(
    m0: MioManager,
    s0: AppServer,
    idx: usize,
    event: ConnectionInput,
    m1: MioManager,
    s1: AppServer,
    polled: Result<PollOutcome, ManagerError>,
) -> bool {
    if idx >= m0.slots().len() || m0.slots()[idx as int].is_none() {
        m1 == m0 && s1 == s0 && polled matches Ok(PollOutcome::Ignored)
    } else {
        let c0 = m0.slots()[idx as int].unwrap();
        let (after, consumed, request) = poll_step(c0@, c0.spec_limits(), event);
        &&& m1.listeners() == m0.listeners()
        &&& s1.spec_limits() == s0.spec_limits()
        &&& s1.next_token() == s0.next_token()
        &&& s1.unused() == s0.unused()
        &&& m1.slots().len() == m0.slots().len()
        &&& forall|k: int|
            0 <= k < m0.slots().len() && k != idx ==> (#[trigger] m1.slots()[k]) == m0.slots()[k]
        &&& match (event, after.state) {
            (ConnectionInput::Failed(e), _) => {
                &&& m1.slots()[idx as int] matches Some(c1)
                &&& c1@ == c0@
                &&& c1.spec_token() == c0.spec_token()
                &&& c1.spec_limits() == c0.spec_limits()
                &&& s1.sources() == s0.sources()
                &&& polled == Err::<PollOutcome, ManagerError>(ManagerError::Io(e))
            },
            (_, ConnectionState::Closing(reason)) => {
                &&& m1.slots()[idx as int].is_none()
                &&& s1.sources() == s0.sources().remove(c0.spec_token().0)
                &&& polled matches Ok(PollOutcome::Closed { token, reason: r })
                &&& token == c0.spec_token()
                &&& r == reason
            },
            _ => {
                &&& m1.slots()[idx as int] matches Some(c1)
                &&& c1@ == after
                &&& c1.spec_token() == c0.spec_token()
                &&& c1.spec_limits() == c0.spec_limits()
                &&& s1.sources() == s0.sources()
                &&& polled matches Ok(PollOutcome::Progress(received))
                &&& received.consumed == consumed
                &&& received.spec_request() == request
            },
        }
    }
}

/// What the outcome of one `accept` on the listener at `idx` does.
///
/// An accepted connection is added; more may be waiting. An unready listener
/// ends the accepting; an interrupted call is repeated; any other error is
/// handed on.
pub open spec fn accepted_from(
    m0: MioManager,
    s0: AppServer,
    idx: usize,
    event: AcceptEvent,
    m1: MioManager,
    s1: AppServer,
    polled: Result<PollOutcome, ManagerError>,
) -> bool {
    if idx >= m0.listeners().len() {
        m1 == m0 && s1 == s0 && polled == Err::<PollOutcome, ManagerError>(
            ManagerError::UnknownListener,
        )
    } else {
        match event {
            AcceptEvent::Accepted(connection) => {
                let added = connection_outcome(control_view(m0, s0), connection.spec_token());
                &&& connection_added(m0, s0, connection, m1, s1, added)
                &&& match added {
                    Ok(index) => polled matches Ok(PollOutcome::Accepted { index: i }) && i
                        == index,
                    Err(e) => polled == Err::<PollOutcome, ManagerError>(e),
                }
            },
            AcceptEvent::WouldBlock => m1 == m0 && s1 == s0 && polled matches Ok(
                PollOutcome::Yield,
            ),
            AcceptEvent::Interrupted => m1 == m0 && s1 == s0 && polled matches Ok(
                PollOutcome::Retry,
            ),
            AcceptEvent::Failed(e) => m1 == m0 && s1 == s0 && polled == Err::<
                PollOutcome,
                ManagerError,
            >(ManagerError::Io(e)),
        }
    }
}

/// What an event does to the source that it is reported for: a listener
/// takes the outcome of an `accept`, a connection takes an event of a
/// connection, and any other pairing is refused and changes nothing.
pub open spec fn source_polled(
    m0: MioManager,
    s0: AppServer,
    io_source: MioManagerIoSource,
    event: ManagerEvent,
    m1: MioManager,
    s1: AppServer,
    polled: Result<PollOutcome, ManagerError>,
) -> bool {
    match (io_source, event) {
        (MioManagerIoSource::Listener(idx), ManagerEvent::Accept(e)) => accepted_from(
            m0,
            s0,
            idx,
            e,
            m1,
            s1,
            polled,
        ),
        (MioManagerIoSource::Connection(idx), ManagerEvent::Connection(e)) => connection_polled(
            m0,
            s0,
            idx,
            e@,
            m1,
            s1,
            polled,
        ),
        _ => m1 == m0 && s1 == s0 && polled == Err::<PollOutcome, ManagerError>(
            ManagerError::UnexpectedEvent,
        ),
    }
}

/// The sources of the first `n` listeners, in order.
pub open spec fn listener_sources(n: nat) -> Seq<MioManagerIoSource> {
    Seq::new(n, |i: int| MioManagerIoSource::Listener(i as usize))
}

/// The sources of the connections in the first `upto` slots, in order.
pub open spec fn connection_sources(slots: Seq<Option<Token>>, upto: nat) -> Seq<MioManagerIoSource>
    decreases upto,
{
    if upto == 0 {
        Seq::empty()
    } else {
        let below = connection_sources(slots, (upto - 1) as nat);
        if upto <= slots.len() && slots[upto - 1].is_some() {
            below.push(MioManagerIoSource::Connection((upto - 1) as usize))
        } else {
            below
        }
    }
}

/// The source of the first connection from the slot at `from` on; none if
/// every slot from there on is empty.
pub open spec fn next_occupied(slots: Seq<Option<Token>>, from: nat) -> Option<MioManagerIoSource>
    decreases slots.len() - from,
{
    if from >= slots.len() {
        None
    } else if slots[from as int].is_some() {
        Some(MioManagerIoSource::Connection(from as usize))
    } else {
        next_occupied(slots, from + 1)
    }
}

/// The source that a round serves after `served`, with that many listeners
/// and these slots: the listeners in order, then, looked for in the slots as
/// they are given here, the connections in ascending order. `None` stands
/// for the start of the round, and for its end.
pub open spec fn round_after(
    listeners: nat,
    slots: Seq<Option<Token>>,
    served: Option<MioManagerIoSource>,
) -> Option<MioManagerIoSource> {
    match served {
        None => if listeners > 0 {
            Some(MioManagerIoSource::Listener(0))
        } else {
            next_occupied(slots, 0)
        },
        Some(MioManagerIoSource::Listener(i)) => if i + 1 < listeners {
            Some(MioManagerIoSource::Listener((i + 1) as usize))
        } else {
            next_occupied(slots, 0)
        },
        Some(MioManagerIoSource::Connection(j)) => next_occupied(slots, (j + 1) as nat),
    }
}

/// The sources of the connections from the slot at `from` on, in order.
pub open spec fn connections_from(slots: Seq<Option<Token>>, from: nat) -> Seq<MioManagerIoSource>
    decreases slots.len() - from,
{
    if from >= slots.len() {
        Seq::empty()
    } else if slots[from as int].is_some() {
        seq![MioManagerIoSource::Connection(from as usize)] + connections_from(slots, from + 1)
    } else {
        connections_from(slots, from + 1)
    }
}

/// A round steps each connection once: the connection that is served next
/// is the first of those from `from` on, and those that follow it are the
/// rest of them.
pub proof fn lemma_round_steps_each_once(slots: Seq<Option<Token>>, from: nat)
    requires
        slots.len() <= usize::MAX,
    ensures
        match next_occupied(slots, from) {
            None => connections_from(slots, from).len() == 0,
            Some(MioManagerIoSource::Connection(j)) => {
                &&& from <= j < slots.len()
                &&& slots[j as int].is_some()
                &&& forall|k: int| from <= k < j ==> (#[trigger] slots[k]).is_none()
                &&& connections_from(slots, from) == seq![MioManagerIoSource::Connection(j)]
                    + connections_from(slots, (j + 1) as nat)
            },
            Some(MioManagerIoSource::Listener(_)) => false,
        },
    decreases slots.len() - from,
{
    if from < slots.len() && slots[from as int].is_none() {
        lemma_round_steps_each_once(slots, from + 1);
    }
}

/// What was served does not matter to what is served next: slots that
/// differ only below `from` name the same connections from `from` on. So
/// the connections of a round are those that were there when its last
/// listener had been served, whatever the steps of the round do to them.
pub proof fn lemma_round_looks_ahead_only(
    slots: Seq<Option<Token>>,
    changed: Seq<Option<Token>>,
    from: nat,
)
    requires
        changed.len() == slots.len(),
        forall|k: int| from <= k < slots.len() ==> changed[k] == slots[k],
    ensures
        next_occupied(changed, from) == next_occupied(slots, from),
        connections_from(changed, from) == connections_from(slots, from),
    decreases slots.len() - from,
{
    if from < slots.len() {
        lemma_round_looks_ahead_only(slots, changed, from + 1);
    }
}

/// The connections that a round steps are those that `poll_connections`
/// names.
pub proof fn lemma_round_is_poll_connections(slots: Seq<Option<Token>>, upto: nat)
    requires
        upto <= slots.len(),
    ensures
        connection_sources(slots, upto) + connections_from(slots, upto) == connection_sources(
            slots,
            slots.len(),
        ),
    decreases slots.len() - upto,
{
    let below = connection_sources(slots, upto);
    if upto < slots.len() {
        lemma_round_is_poll_connections(slots, upto + 1);
        let rest = connections_from(slots, upto + 1);
        if slots[upto as int].is_some() {
            let here = MioManagerIoSource::Connection(upto as usize);
            assert(below.push(here) + rest =~= below + (seq![here] + rest));
        }
    } else {
        assert(below + connections_from(slots, upto) =~= below);
    }
}

/// If every slot is well-formed but perhaps the one at `idx`, and that one
/// is too, then every slot is.
proof fn lemma_slots_stay_well_formed(
    before: Seq<Option<MioConnection>>,
    after: Seq<Option<MioConnection>>,
    idx: int,
)
    requires
        forall|j: int| 0 <= j < before.len() ==> (#[trigger] before[j] matches Some(c) ==> c.wf()),
        forall|j: int|
            0 <= j < after.len() && j != idx ==> j < before.len() && #[trigger] after[j]
                == before[j],
        0 <= idx < after.len() ==> (after[idx] matches Some(c) ==> c.wf()),
    ensures
        forall|j: int| 0 <= j < after.len() ==> (#[trigger] after[j] matches Some(c) ==> c.wf()),
{
    assert forall|j: int| 0 <= j < after.len() implies (#[trigger] after[j] matches Some(c)
        ==> c.wf()) by {
        if j != idx {
            assert(after[j] == before[j]);
        }
    }
}

/// What the connection manager needs of its surroundings: the manager
/// itself and the application server that it is a part of. On these four
/// accessors the trait provides the manager's operations.
pub trait MioManagerContext {
    /// The manager that the accessors give.
    spec fn manager(&self) -> MioManager;

    /// The application server that the accessors give.
    spec fn server(&self) -> AppServer;

    fn mio_manager(&self) -> (manager: &MioManager)
        ensures
            *manager == self.manager(),
    ;

    fn mio_manager_mut(&mut self) -> (manager: &mut MioManager)
        ensures
            *manager == old(self).manager(),
            final(self).manager() == *final(manager),
            final(self).server() == old(self).server(),
    ;

    fn app_server(&self) -> (server: &AppServer)
        ensures
            *server == self.server(),
    ;

    fn app_server_mut(&mut self) -> (server: &mut AppServer)
        ensures
            *server == old(self).server(),
            final(self).server() == *final(server),
            final(self).manager() == old(self).manager(),
    ;

    /// Adds a listener: it gets the next listener index, and its token is
    /// recorded as naming it. Gives the index.
    fn add_listener(&mut self, listener: MioListener) -> (added: Result<usize, ManagerError>)
        requires
            linked(old(self).manager(), old(self).server()),
        ensures
            linked(final(self).manager(), final(self).server()),
            added == listener_outcome(
                control_view(old(self).manager(), old(self).server()),
                listener.spec_token(),
            ),
            control_view(final(self).manager(), final(self).server()) == control_apply(
                control_view(old(self).manager(), old(self).server()),
                ControlOp::AddListener(listener.spec_token()),
            ),
            final(self).manager().slots() == old(self).manager().slots(),
            final(self).server().spec_limits() == old(self).server().spec_limits(),
            final(self).manager().listeners() == if added.is_ok() {
                old(self).manager().listeners().push(listener)
            } else {
                old(self).manager().listeners()
            },
    {
        let token = listener.mio_token();
        let idx: usize = self.mio_manager().listeners.len();
        let ghost v0 = control_view(self.manager(), self.server());
        if idx == usize::MAX {
            return Err(ManagerError::Full);
        }
        let source = AppServerIoSource::MioManager(MioManagerIoSource::Listener(idx));
        match self.app_server_mut().register_io_source(token, source) {
            Err(e) => {
                return Err(ManagerError::Registry(e));
            },
            Ok(()) => {},
        }
        self.mio_manager_mut().listeners.push(listener);
        proof {
            let v1 = control_view(self.manager(), self.server());
            assert(v1.listeners =~= v0.listeners.push(token));
            assert(v1.slots =~= v0.slots);
            lemma_apply_keeps_order(v0, ControlOp::AddListener(token));
        }
        Ok(idx)
    }

    /// Adds a connection: it goes into the lowest empty slot, or behind the
    /// last slot if none is empty, and its token is recorded as naming that
    /// slot. Gives the index of the slot.
    fn add_connection(&mut self, connection: MioConnection) -> (added: Result<usize, ManagerError>)
        requires
            linked(old(self).manager(), old(self).server()),
            connection.wf(),
        ensures
            linked(final(self).manager(), final(self).server()),
            connection_added(
                old(self).manager(),
                old(self).server(),
                connection,
                final(self).manager(),
                final(self).server(),
                added,
            ),
    {
        let token = connection.mio_token();
        let idx: usize = self.mio_manager().lowest_free();
        let ghost v0 = control_view(self.manager(), self.server());
        let ghost slots0 = self.manager().slots();
        if idx == usize::MAX {
            return Err(ManagerError::Full);
        }
        let source = AppServerIoSource::MioManager(MioManagerIoSource::Connection(idx));
        match self.app_server_mut().register_io_source(token, source) {
            Err(e) => {
                return Err(ManagerError::Registry(e));
            },
            Ok(()) => {},
        }
        self.mio_manager_mut().place(idx, connection);
        proof {
            let v1 = control_view(self.manager(), self.server());
            assert(v1.slots =~= placed(v0.slots, idx as nat, Some(token)));
            assert(v1.listeners =~= v0.listeners);
            lemma_apply_keeps_order(v0, ControlOp::AddConnection(token));
            lemma_slots_stay_well_formed(slots0, self.manager().slots(), idx as int);
        }
        Ok(idx)
    }

    /// Takes what the caller reports for one source of the manager: the
    /// outcome of an `accept` for a listener, an event for a connection.
    fn poll_particular(&mut self, io_source: MioManagerIoSource, event: ManagerEvent) -> (polled:
        Result<PollOutcome, ManagerError>)
        requires
            linked(old(self).manager(), old(self).server()),
            event matches ManagerEvent::Accept(AcceptEvent::Accepted(c)) ==> c.wf(),
        ensures
            linked(final(self).manager(), final(self).server()),
            source_polled(
                old(self).manager(),
                old(self).server(),
                io_source,
                event,
                final(self).manager(),
                final(self).server(),
                polled,
            ),
    {
        match (io_source, event) {
            (MioManagerIoSource::Listener(idx), ManagerEvent::Accept(e)) => self.accept_from(
                idx,
                e,
            ),
            (
                MioManagerIoSource::Connection(idx),
                ManagerEvent::Connection(e),
            ) => self.poll_particular_connection(idx, e),
            _ => Err(ManagerError::UnexpectedEvent),
        }
    }

    /// The source to serve after `served` in one round, read from the manager
    /// as it is now: the listeners in order, each to be accepted from until
    /// it is not ready, then the occupied slots in ascending order, each to
    /// be stepped once. A round begins with `None` and ends when nothing is
    /// named, or when serving a source fails. The connections are looked for
    /// only once the last listener was served, so that a round steps those
    /// that it accepted as well.
    fn poll(&self, served: Option<MioManagerIoSource>) -> (next: Option<MioManagerIoSource>)
        ensures
            next == round_after(
                self.manager().listeners().len(),
                self.manager().slot_tokens(),
                served,
            ),
    {
        let manager = self.mio_manager();
        let listeners: usize = manager.listeners.len();
        match served {
            None => {
                if listeners > 0 {
                    Some(MioManagerIoSource::Listener(0))
                } else {
                    manager.occupied_from(0)
                }
            },
            Some(MioManagerIoSource::Listener(i)) => {
                if i < listeners && i + 1 < listeners {
                    Some(MioManagerIoSource::Listener(i + 1))
                } else {
                    manager.occupied_from(0)
                }
            },
            Some(MioManagerIoSource::Connection(j)) => {
                if j < manager.connections.len() {
                    manager.occupied_from(j + 1)
                } else {
                    None
                }
            },
        }
    }

    /// The sources of the listeners, in order: each is to be accepted from
    /// until it is not ready.
    fn accept_connections(&self) -> (round: Vec<MioManagerIoSource>)
        ensures
            round@ == listener_sources(self.manager().listeners().len()),
    {
        let count: usize = self.mio_manager().listeners.len();
        let mut round: Vec<MioManagerIoSource> = Vec::new();
        let mut idx: usize = 0;
        while idx < count
            invariant
                idx <= count,
                round@ == listener_sources(idx as nat),
            decreases count - idx,
        {
            round.push(MioManagerIoSource::Listener(idx));
            assert(round@ =~= listener_sources((idx + 1) as nat));
            idx = idx + 1;
        }
        round
    }

    /// Takes the outcome of one `accept` on the listener at `idx`.
    fn accept_from(&mut self, idx: usize, event: AcceptEvent) -> (polled: Result<
        PollOutcome,
        ManagerError,
    >)
        requires
            linked(old(self).manager(), old(self).server()),
            event matches AcceptEvent::Accepted(c) ==> c.wf(),
        ensures
            linked(final(self).manager(), final(self).server()),
            accepted_from(
                old(self).manager(),
                old(self).server(),
                idx,
                event,
                final(self).manager(),
                final(self).server(),
                polled,
            ),
    {
        if idx >= self.mio_manager().listeners.len() {
            return Err(ManagerError::UnknownListener);
        }
        match event {
            AcceptEvent::Accepted(connection) => {
                let added = self.add_connection(connection);
                match added {
                    Ok(index) => Ok(PollOutcome::Accepted { index }),
                    Err(e) => Err(e),
                }
            },
            AcceptEvent::WouldBlock => Ok(PollOutcome::Yield),
            AcceptEvent::Interrupted => Ok(PollOutcome::Retry),
            AcceptEvent::Failed(e) => Err(ManagerError::Io(e)),
        }
    }

    /// The sources of the connections that are there now, in the order of
    /// their slots: each is to be stepped once. After accepting, ask again.
    fn poll_connections(&self) -> (round: Vec<MioManagerIoSource>)
        ensures
            round@ == connection_sources(
                self.manager().slot_tokens(),
                self.manager().slots().len(),
            ),
    {
        let manager = self.mio_manager();
        let count: usize = manager.connections.len();
        let mut round: Vec<MioManagerIoSource> = Vec::new();
        let mut idx: usize = 0;
        while idx < count
            invariant
                idx <= count,
                count == manager.slots().len(),
                round@ == connection_sources(manager.slot_tokens(), idx as nat),
            decreases count - idx,
        {
            if manager.connections[idx].is_some() {
                round.push(MioManagerIoSource::Connection(idx));
            }
            idx = idx + 1;
        }
        round
    }

    /// Steps the connection in the slot at `idx` once, on what the caller
    /// reports, and removes it if that leaves it closing.
    fn poll_particular_connection(&mut self, idx: usize, event: ConnectionEvent) -> (polled: Result<
        PollOutcome,
        ManagerError,
    >)
        requires
            linked(old(self).manager(), old(self).server()),
        ensures
            linked(final(self).manager(), final(self).server()),
            connection_polled(
                old(self).manager(),
                old(self).server(),
                idx,
                event@,
                final(self).manager(),
                final(self).server(),
                polled,
            ),
    {
        let ghost m0 = self.manager();
        let ghost s0 = self.server();
        let ghost v0 = control_view(m0, s0);
        let occupied: bool = idx < self.mio_manager().connections.len()
            && self.mio_manager().connections[idx].is_some();
        if !occupied {
            return Ok(PollOutcome::Ignored);
        }
        let mut connection = self.mio_manager_mut().vacate(idx).unwrap();
        let polled = connection.poll(event);
        let received = match polled {
            Err(e) => {
                self.mio_manager_mut().place(idx, connection);
                proof {
                    let v1 = control_view(self.manager(), self.server());
                    assert(v1.slots =~= v0.slots);
                    assert(v1.listeners =~= v0.listeners);
                    assert(v1 == v0);
                    lemma_slots_stay_well_formed(m0.slots(), self.manager().slots(), idx as int);
                }
                return Err(ManagerError::Io(e));
            },
            Ok(received) => received,
        };
        if let Some(reason) = connection.close_reason() {
            let token = connection.mio_token();
            self.app_server_mut().unregister_io_source(token);
            proof {
                let v1 = control_view(self.manager(), self.server());
                assert(v0.slots[idx as int] == Some(token));
                assert(v1.slots =~= v0.slots.update(idx as int, None));
                assert(v1.listeners =~= v0.listeners);
                assert(v1 == control_apply(v0, ControlOp::Close(idx)));
                lemma_apply_keeps_order(v0, ControlOp::Close(idx));
                lemma_slots_stay_well_formed(m0.slots(), self.manager().slots(), idx as int);
            }
            Ok(PollOutcome::Closed { token, reason })
        } else {
            self.mio_manager_mut().place(idx, connection);
            proof {
                let v1 = control_view(self.manager(), self.server());
                assert(v1.slots =~= v0.slots);
                assert(v1.listeners =~= v0.listeners);
                assert(v1 == v0);
                lemma_slots_stay_well_formed(m0.slots(), self.manager().slots(), idx as int);
            }
            Ok(PollOutcome::Progress(received))
        }
    }
}

/// The whole control plane in one value: an application server and the
/// connection manager that is a part of it.
#[derive(Debug)]
pub struct ControlPlane {
    server: AppServer,
    manager: MioManager,
}

impl ControlPlane {
    /// A control plane with no listener, no connection and no token handed
    /// out, for frames within `limits`.
    pub fn new(limits: crate::codec::FrameLimits) -> (plane: ControlPlane)
        ensures
            linked(plane.manager(), plane.server()),
            plane.manager().listeners().len() == 0,
            plane.manager().slots().len() == 0,
            plane.server().sources() == Map::<usize, AppServerIoSource>::empty(),
            plane.server().next_token() == 0,
            plane.server().spec_limits() == limits,
    {
        let plane = ControlPlane { server: AppServer::new(limits), manager: MioManager::new() };
        assert(control_view(plane.manager, plane.server).listeners =~= Seq::empty());
        assert(control_view(plane.manager, plane.server).slots =~= Seq::empty());
        plane
    }
}

impl ControlPlane {
    /// Delivers the readiness of `token`: the event goes to the source that
    /// the token names. Readiness of a token that names no source, such as
    /// one that was still under way when its connection was removed, is
    /// dropped.
    pub fn dispatch(&mut self, token: Token, event: ManagerEvent) -> (polled: Result<
        PollOutcome,
        ManagerError,
    >)
        requires
            linked(old(self).manager(), old(self).server()),
            event matches ManagerEvent::Accept(AcceptEvent::Accepted(c)) ==> c.wf(),
        ensures
            linked(final(self).manager(), final(self).server()),
            match lookup(old(self).server().sources(), token) {
                None => final(self).manager() == old(self).manager() && final(self).server()
                    == old(self).server() && polled matches Ok(PollOutcome::Ignored),
                Some(AppServerIoSource::MioManager(io_source)) => source_polled(
                    old(self).manager(),
                    old(self).server(),
                    io_source,
                    event,
                    final(self).manager(),
                    final(self).server(),
                    polled,
                ),
            },
    {
        match self.server.io_source(token) {
            None => Ok(PollOutcome::Ignored),
            Some(AppServerIoSource::MioManager(io_source)) => self.poll_particular(
                io_source,
                event,
            ),
        }
    }
}

impl MioManagerContext for ControlPlane {
    closed spec fn manager(&self) -> MioManager {
        self.manager
    }

    closed spec fn server(&self) -> AppServer {
        self.server
    }

    fn mio_manager(&self) -> (manager: &MioManager) {
        &self.manager
    }

    fn mio_manager_mut(&mut self) -> (manager: &mut MioManager) {
        &mut self.manager
    }

    fn app_server(&self) -> (server: &AppServer) {
        &self.server
    }

    fn app_server_mut(&mut self) -> (server: &mut AppServer) {
        &mut self.server
    }
}

/// A view of one connection inside a manager: the surroundings of the
/// manager and the index of the connection's slot. It is made for one step
/// of the connection and given up after it; nothing keeps a reference from a
/// connection back to its manager.
pub struct MioConnectionFocus<'a, T: ?Sized + MioManagerContext> {
    /// The surroundings of the manager.
    pub ctx: &'a mut T,
    /// The index of the slot in focus.
    pub conn_idx: usize,
}

impl<'a, T: ?Sized + MioManagerContext> MioConnectionFocus<'a, T> {
    pub fn new(ctx: &'a mut T, conn_idx: usize) -> (focus: Self)
        ensures
            focus.ctx.manager() == old(ctx).manager(),
            focus.ctx.server() == old(ctx).server(),
            final(focus.ctx).manager() == final(ctx).manager(),
            final(focus.ctx).server() == final(ctx).server(),
            focus.conn_idx == conn_idx,
    {
        MioConnectionFocus { ctx, conn_idx }
    }

    /// Whether the slot in focus holds a connection.
    pub open spec fn occupied(&self) -> bool {
        self.conn_idx < self.ctx.manager().slots().len()
            && self.ctx.manager().slots()[self.conn_idx as int].is_some()
    }

    /// The connection in focus.
    pub open spec fn connection(&self) -> MioConnection {
        self.ctx.manager().slots()[self.conn_idx as int].unwrap()
    }

    pub fn mio_connection(&self) -> (connection: &MioConnection)
        requires
            self.occupied(),
        ensures
            *connection == self.connection(),
    {
        match &self.ctx.mio_manager().connections[self.conn_idx] {
            Some(c) => c,
            None => vstd::pervasive::unreached(),
        }
    }

    pub fn app_server(&self) -> (server: &AppServer)
        ensures
            *server == old(self.ctx).server(),
    {
        self.ctx.app_server()
    }

    pub fn mio_connection_mut(&mut self) -> (connection: &mut MioConnection)
        requires
            old(self).occupied(),
        ensures
            *connection == old(self).connection(),
            final(self).ctx.manager().slots() == old(self).ctx.manager().slots().update(
                old(self).conn_idx as int,
                Some(*final(connection)),
            ),
            final(self).ctx.manager().listeners() == old(self).ctx.manager().listeners(),
            final(self).ctx.server() == old(self).ctx.server(),
            final(self).conn_idx == old(self).conn_idx,
            final(final(self).ctx).manager() == final(old(self).ctx).manager(),
            final(final(self).ctx).server() == final(old(self).ctx).server(),
    {
        match &mut self.ctx.mio_manager_mut().connections[self.conn_idx] {
            Some(c) => c,
            None => vstd::pervasive::unreached(),
        }
    }

    pub fn app_server_mut(&mut self) -> (server: &mut AppServer)
        ensures
            *server == old(self).ctx.server(),
            final(self).ctx.server() == *final(server),
            final(self).ctx.manager() == old(self).ctx.manager(),
            final(self).conn_idx == old(self).conn_idx,
            final(final(self).ctx).manager() == final(old(self).ctx).manager(),
            final(final(self).ctx).server() == final(old(self).ctx).server(),
    {
        self.ctx.app_server_mut()
    }

    /// Steps the connection in focus once.
    pub fn poll(&mut self, event: ConnectionEvent) -> (polled: Result<Received, Errno>)
        requires
            old(self).occupied(),
            old(self).connection().wf(),
        ensures
            final(self).occupied(),
            final(self).connection().wf(),
            final(self).connection()@ == poll_step(
                old(self).connection()@,
                old(self).connection().spec_limits(),
                event@,
            ).0,
            final(self).connection().spec_token() == old(self).connection().spec_token(),
            final(self).connection().spec_limits() == old(self).connection().spec_limits(),
            match event@ {
                ConnectionInput::Failed(e) => polled == Err::<Received, Errno>(e),
                _ => polled matches Ok(received) && received.consumed as nat == poll_step(
                    old(self).connection()@,
                    old(self).connection().spec_limits(),
                    event@,
                ).1 && received.spec_request() == poll_step(
                    old(self).connection()@,
                    old(self).connection().spec_limits(),
                    event@,
                ).2,
            },
            final(self).ctx.manager().slots() == old(self).ctx.manager().slots().update(
                old(self).conn_idx as int,
                Some(final(self).connection()),
            ),
            final(self).ctx.manager().listeners() == old(self).ctx.manager().listeners(),
            final(self).ctx.server() == old(self).ctx.server(),
            final(self).conn_idx == old(self).conn_idx,
            final(final(self).ctx).manager() == final(old(self).ctx).manager(),
            final(final(self).ctx).server() == final(old(self).ctx).server(),
    {
        self.mio_connection_mut().poll(event)
    }

    /// Whether the connection in focus is to be removed.
    pub fn should_close(&self) -> (closing: bool)
        requires
            self.occupied(),
        ensures
            closing == (old(self.ctx).manager().slots()[self.conn_idx as int].unwrap()@.state
                is Closing),
    {
        self.mio_connection().should_close()
    }
}

} // verus!
