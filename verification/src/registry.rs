//! The readiness registry of the application server: a dispenser of tokens
//! and the table that says where the readiness of each token is delivered.

use crate::codec::FrameLimits;
use crate::manager::MioManagerIoSource;
use std::collections::HashMap;
use std::collections::HashSet;
use vstd::prelude::*;

verus! {

broadcast use vstd::std_specs::hash::group_hash_axioms;

/// Names a source of readiness to the poll layer.
#[derive(Clone, Copy, Debug, PartialEq, Eq, Hash, Structural)]
pub struct Token(pub usize);

/// Hands out tokens, each once.
#[derive(Debug)]
pub struct MioTokenDispenser {
    counter: usize,
}

impl MioTokenDispenser {
    /// The number of the token that is handed out next: every token below it
    /// has been handed out, and none from it on.
    pub closed spec fn next(&self) -> nat {
        self.counter as nat
    }

    pub fn new() -> (dispenser: MioTokenDispenser)
        ensures
            dispenser.next() == 0,
    {
        MioTokenDispenser { counter: 0 }
    }

    /// Hands out the next token, or nothing once the numbers have run out.
    pub fn dispense(&mut self) -> (token: Option<Token>)
        ensures
            old(self).next() < usize::MAX ==> token == Some(Token(old(self).next() as usize))
                && final(self).next() == old(self).next() + 1,
            old(self).next() >= usize::MAX ==> token.is_none() && final(self).next() == old(
                self,
            ).next(),
    {
        if self.counter == usize::MAX {
            None
        } else {
            let token = Token(self.counter);
            self.counter = self.counter + 1;
            Some(token)
        }
    }
}

/// Where the readiness of a token is delivered.
#[derive(Clone, Copy, Debug, PartialEq, Eq, Structural)]
pub enum AppServerIoSource {
    /// To a listener or a connection of the connection manager.
    MioManager(MioManagerIoSource),
}

/// Why a source was not registered.
#[derive(Clone, Copy, Debug, PartialEq, Eq, Structural)]
pub enum RegistryError {
    /// The dispenser never handed out this token.
    UnknownToken,
    /// The token already names a source.
    TokenInUse,
    /// The token named a source before; a token serves once.
    TokenRetired,
}

/// The process-wide state of the control plane.
#[derive(Debug)]
pub struct AppServer {
    limits: FrameLimits,
    mio_token_dispenser: MioTokenDispenser,
    io_source_index: HashMap<usize, AppServerIoSource>,
    /// The tokens that were handed out and have not named a source yet.
    unused: HashSet<usize>,
}

impl AppServer {
    /// The table from the number of each registered token to its source.
    pub closed spec fn sources(&self) -> Map<usize, AppServerIoSource> {
        self.io_source_index@
    }

    /// The numbers of the tokens that were handed out and have named no
    /// source yet. A token that was handed out and is neither here nor in
    /// the table has served, and is retired.
    pub closed spec fn unused(&self) -> Set<usize> {
        self.unused@
    }

    /// The number of the token that is handed out next.
    pub closed spec fn next_token(&self) -> nat {
        self.mio_token_dispenser.next()
    }

    /// The bounds on frames that hold in this process.
    pub closed spec fn spec_limits(&self) -> FrameLimits {
        self.limits
    }

    /// Only tokens that were handed out are registered or unused, and none
    /// is both.
    pub open spec fn wf(&self) -> bool {
        &&& forall|t: usize| #[trigger]
            self.sources().contains_key(t) ==> (t as nat) < self.next_token()
                && !self.unused().contains(t)
        &&& forall|t: usize| #[trigger] self.unused().contains(t) ==> (t as nat) < self.next_token()
    }

    pub fn new(limits: FrameLimits) -> (server: AppServer)
        ensures
            server.wf(),
            server.sources() == Map::<usize, AppServerIoSource>::empty(),
            server.unused() == Set::<usize>::empty(),
            server.next_token() == 0,
            server.spec_limits() == limits,
    {
        AppServer {
            limits,
            mio_token_dispenser: MioTokenDispenser::new(),
            io_source_index: HashMap::new(),
            unused: HashSet::new(),
        }
    }

    pub fn limits(&self) -> (limits: FrameLimits)
        ensures
            limits == self.spec_limits(),
    {
        self.limits
    }

    /// Hands out a token that was never handed out before, or nothing once
    /// the numbers have run out.
    pub fn dispense_token(&mut self) -> (token: Option<Token>)
        requires
            old(self).wf(),
        ensures
            final(self).wf(),
            final(self).sources() == old(self).sources(),
            final(self).spec_limits() == old(self).spec_limits(),
            token == dispensed(old(self).next_token()),
            final(self).next_token() == next_after(old(self).next_token()),
            final(self).unused() == unused_after(old(self).unused(), old(self).next_token()),
    {
        let token = self.mio_token_dispenser.dispense();
        if let Some(t) = token {
            self.unused.insert(t.0);
        }
        proof {
            assert forall|t: usize| #[trigger] self.sources().contains_key(t) implies (t as nat)
                < self.next_token() && !self.unused().contains(t) by {
                assert(old(self).sources().contains_key(t));
            }
            assert forall|t: usize| #[trigger] self.unused().contains(t) implies (t as nat)
                < self.next_token() by {
                if (t as nat) != old(self).next_token() {
                    assert(old(self).unused().contains(t));
                }
            }
        }
        token
    }

    /// Records that the readiness of `token` goes to `source`.
    ///
    /// A token that was never handed out, that names a source already, or
    /// that named one before is refused, and nothing changes.
    pub fn register_io_source(&mut self, token: Token, source: AppServerIoSource) -> (registered:
        Result<(), RegistryError>)
        requires
            old(self).wf(),
        ensures
            final(self).wf(),
            final(self).next_token() == old(self).next_token(),
            final(self).spec_limits() == old(self).spec_limits(),
            registered == registration(
                old(self).sources(),
                old(self).unused(),
                old(self).next_token(),
                token,
            ),
            registered.is_ok() ==> final(self).sources() == old(self).sources().insert(
                token.0,
                source,
            ) && final(self).unused() == old(self).unused().remove(token.0),
            registered.is_err() ==> final(self).sources() == old(self).sources()
                && final(self).unused() == old(self).unused(),
    {
        if token.0 >= self.mio_token_dispenser.counter {
            return Err(RegistryError::UnknownToken);
        }
        if self.io_source_index.contains_key(&token.0) {
            return Err(RegistryError::TokenInUse);
        }
        if !self.unused.remove(&token.0) {
            assert(self.unused@ =~= old(self).unused@);
            return Err(RegistryError::TokenRetired);
        }
        self.io_source_index.insert(token.0, source);
        Ok(())
    }

    /// Forgets the source of `token`, and returns it. Readiness that is
    /// still under way for the token then finds no source, and the token
    /// can name no source again.
    pub fn unregister_io_source(&mut self, token: Token) -> (source: Option<AppServerIoSource>)
        requires
            old(self).wf(),
        ensures
            final(self).wf(),
            final(self).next_token() == old(self).next_token(),
            final(self).spec_limits() == old(self).spec_limits(),
            final(self).sources() == old(self).sources().remove(token.0),
            final(self).unused() == old(self).unused(),
            source == lookup(old(self).sources(), token),
    {
        let source = self.io_source_index.remove(&token.0);
        proof {
            assert forall|t: usize| #[trigger] self.sources().contains_key(t) implies (t as nat)
                < self.next_token() && !self.unused().contains(t) by {
                assert(old(self).sources().contains_key(t));
            }
            assert forall|t: usize| #[trigger] self.unused().contains(t) implies (t as nat)
                < self.next_token() by {
                assert(old(self).unused().contains(t));
            }
        }
        source
    }

    /// The source to which the readiness of `token` is delivered; none for a
    /// token that is not registered, whose readiness is to be dropped.
    pub fn io_source(&self, token: Token) -> (source: Option<AppServerIoSource>)
        ensures
            source == lookup(self.sources(), token),
    {
        match self.io_source_index.get(&token.0) {
            Some(source) => Some(*source),
            None => None,
        }
    }
}

/// The source that a table gives for a token.
pub open spec fn lookup(sources: Map<usize, AppServerIoSource>, token: Token) -> Option<
    AppServerIoSource,
> {
    if sources.contains_key(token.0) {
        Some(sources[token.0])
    } else {
        None
    }
}

/// The token that is handed out when `next` is the next number.
pub open spec fn dispensed(next: nat) -> Option<Token> {
    if next < usize::MAX {
        Some(Token(next as usize))
    } else {
        None
    }
}

/// The next number after a token was asked for.
pub open spec fn next_after(next: nat) -> nat {
    if next < usize::MAX {
        next + 1
    } else {
        next
    }
}

/// The unused tokens after a token was asked for.
pub open spec fn unused_after(unused: Set<usize>, next: nat) -> Set<usize> {
    if next < usize::MAX {
        unused.insert(next as usize)
    } else {
        unused
    }
}

/// The outcome of an attempt to register `token`, where the tokens below
/// `next` have been handed out and those in `unused` have named no source
/// yet.
pub open spec fn registration(
    sources: Map<usize, AppServerIoSource>,
    unused: Set<usize>,
    next: nat,
    token: Token,
) -> Result<(), RegistryError> {
    if token.0 >= next {
        Err(RegistryError::UnknownToken)
    } else if sources.contains_key(token.0) {
        Err(RegistryError::TokenInUse)
    } else if !unused.contains(token.0) {
        Err(RegistryError::TokenRetired)
    } else {
        Ok(())
    }
}

} // verus!
