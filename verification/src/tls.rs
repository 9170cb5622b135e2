//! The lifecycle of a secure-transport client session.
//!
//! The cryptography and the sockets belong to a native engine that this
//! library never calls. The library decides: which operation may be asked of
//! the engine in which state, what each answer of the engine means, and what
//! has to be released when. A driver performs the calls. It gets the native
//! handle of a session only through [`Client::request`] and
//! [`Client::close`], so it cannot touch a session out of turn.
use vstd::prelude::*;
use vstd::string::StringSliceAdditionalSpecFns;

verus! {

/// The engine's answer to a read or write that must be repeated once the
/// channel can be read.
pub const TLS_WANT_POLLIN: isize = -2;

/// The engine's answer to a read or write that must be repeated once the
/// channel can be written.
pub const TLS_WANT_POLLOUT: isize = -3;

/// The engine's bit for protocol version 1.2.
pub const TLS_PROTOCOL_TLSV1_2: u32 = 8;

/// The engine's bit for protocol version 1.3.
pub const TLS_PROTOCOL_TLSV1_3: u32 = 16;

/// A version of the transport-layer security protocol.
#[derive(Clone, Copy, PartialEq, Eq, Debug, Structural)]
pub enum ProtocolVersion {
    Tls12,
    Tls13,
}

/// The engine's bit for `version`.
pub open spec fn bit_of(version: ProtocolVersion) -> u32 {
    match version {
        ProtocolVersion::Tls12 => TLS_PROTOCOL_TLSV1_2,
        ProtocolVersion::Tls13 => TLS_PROTOCOL_TLSV1_3,
    }
}

/// The bit mask that names the versions in `versions` to the engine.
pub open spec fn mask_of(versions: Set<ProtocolVersion>) -> u32 {
    ((if versions.contains(ProtocolVersion::Tls12) {
        8int
    } else {
        0int
    }) + (if versions.contains(ProtocolVersion::Tls13) {
        16int
    } else {
        0int
    })) as u32
}

/// The protocol versions that a handshake may settle on.
#[derive(Clone, Copy, Debug)]
pub struct ProtocolVersionSet {
    mask: u32,
}

impl View for ProtocolVersionSet {
    type V = Set<ProtocolVersion>;

    closed spec fn view(&self) -> Set<ProtocolVersion> {
        Set::new(|v: ProtocolVersion| self.mask & bit_of(v) != 0)
    }
}

impl ProtocolVersionSet {
    #[verifier::type_invariant]
    spec fn only_known_bits(self) -> bool {
        self.mask & !24u32 == 0
    }

    /// The set that allows no version.
    pub fn empty() -> (r: Self)
        ensures
            r@ == Set::<ProtocolVersion>::empty(),
    {
        proof {
            assert(0u32 & !24u32 == 0) by (bit_vector);
            assert(0u32 & 8u32 == 0 && 0u32 & 16u32 == 0) by (bit_vector);
        }
        let r = ProtocolVersionSet { mask: 0 };
        assert(r@ =~= Set::<ProtocolVersion>::empty());
        r
    }

    /// The versions that a client of this library allows: 1.2 and 1.3.
    pub fn modern() -> (r: Self)
        ensures
            r@ == Set::<ProtocolVersion>::empty().insert(ProtocolVersion::Tls12).insert(
                ProtocolVersion::Tls13,
            ),
    {
        ProtocolVersionSet::empty().with(ProtocolVersion::Tls12).with(ProtocolVersion::Tls13)
    }

    /// This set and `version`.
    pub fn with(self, version: ProtocolVersion) -> (r: Self)
        ensures
            r@ == self@.insert(version),
    {
        let bit: u32 = match version {
            ProtocolVersion::Tls12 => TLS_PROTOCOL_TLSV1_2,
            ProtocolVersion::Tls13 => TLS_PROTOCOL_TLSV1_3,
        };
        let old_mask: u32 = self.mask;
        proof {
            use_type_invariant(&self);
            assert((old_mask | bit) & !24u32 == 0 && ((old_mask | bit) & 8u32 != 0 <==> (old_mask
                & 8u32 != 0 || bit == 8u32)) && ((old_mask | bit) & 16u32 != 0 <==> (old_mask
                & 16u32 != 0 || bit == 16u32))) by (bit_vector)
                requires
                    old_mask & !24u32 == 0,
                    bit == 8u32 || bit == 16u32,
            ;
        }
        let r = ProtocolVersionSet { mask: old_mask | bit };
        assert(r@ =~= self@.insert(version));
        r
    }

    /// Whether `version` is allowed.
    pub fn contains(&self, version: ProtocolVersion) -> (r: bool)
        ensures
            r == self@.contains(version),
    {
        let bit: u32 = match version {
            ProtocolVersion::Tls12 => TLS_PROTOCOL_TLSV1_2,
            ProtocolVersion::Tls13 => TLS_PROTOCOL_TLSV1_3,
        };
        self.mask & bit != 0
    }

    /// The bit mask that names this set to the engine.
    pub fn mask(&self) -> (r: u32)
        ensures
            r == mask_of(self@),
    {
        let m: u32 = self.mask;
        proof {
            use_type_invariant(self);
            assert(m == (if m & 8u32 != 0 {
                8u32
            } else {
                0u32
            }) + (if m & 16u32 != 0 {
                16u32
            } else {
                0u32
            })) by (bit_vector)
                requires
                    m & !24u32 == 0,
            ;
        }
        m
    }
}

/// Why an operation on a configuration or a session did not succeed.
#[derive(Clone, Copy, PartialEq, Eq, Debug, Structural)]
pub enum SessionError {
    /// The engine could not produce a configuration or a session.
    Allocation,
    /// The engine refused the protocol versions or the configuration.
    Configuration,
    /// The engine could not resolve the address or complete the handshake.
    Connection,
    /// The engine reported a failed read or write.
    Io,
    /// The operation is not allowed in the state the session is in.
    State,
}

/// The policy that a session is created with. It lives from its creation to
/// its release, which consumes it.
#[derive(Debug)]
pub struct Configuration {
    handle: usize,
    protocols: ProtocolVersionSet,
}

/// What a configuration is, to the contracts.
pub struct ConfigurationView {
    pub handle: usize,
    pub protocols: Set<ProtocolVersion>,
}

impl View for Configuration {
    type V = ConfigurationView;

    closed spec fn view(&self) -> ConfigurationView {
        ConfigurationView { handle: self.handle, protocols: self.protocols@ }
    }
}

impl Configuration {
    #[verifier::type_invariant]
    spec fn handle_is_live(self) -> bool {
        self.handle != 0
    }

    /// Takes charge of the configuration that the engine allocated under
    /// `handle`. A null handle means that the engine could not allocate.
    pub fn create(handle: usize) -> (r: Result<Configuration, SessionError>)
        ensures
            match r {
                Ok(c) => handle != 0 && c@.handle == handle && c@.protocols == Set::<
                    ProtocolVersion,
                >::empty(),
                Err(e) => handle == 0 && e == SessionError::Allocation,
            },
    {
        if handle == 0 {
            Err(SessionError::Allocation)
        } else {
            Ok(Configuration { handle, protocols: ProtocolVersionSet::empty() })
        }
    }

    /// Records the engine's answer `status` to setting the allowed versions
    /// to `versions`: zero means that they are set.
    pub fn allow_protocols(&mut self, versions: ProtocolVersionSet, status: i32) -> (r: Result<
        (),
        SessionError,
    >)
        ensures
            final(self)@.handle == old(self)@.handle,
            status == 0 ==> r == Ok::<(), SessionError>(()) && final(self)@.protocols == versions@,
            status != 0 ==> r == Err::<(), SessionError>(SessionError::Configuration),
            status != 0 ==> final(self)@ == old(self)@,
    {
        proof {
            use_type_invariant(&*self);
        }
        if status == 0 {
            self.protocols = versions;
            Ok(())
        } else {
            Err(SessionError::Configuration)
        }
    }

    /// The native handle, for the calls that configure.
    pub fn handle(&self) -> (r: usize)
        ensures
            r == self@.handle,
            r != 0,
    {
        proof {
            use_type_invariant(self);
        }
        self.handle
    }

    /// The versions that were last set.
    pub fn protocols(&self) -> (r: ProtocolVersionSet)
        ensures
            r@ == self@.protocols,
    {
        self.protocols
    }

    /// Ends the configuration and hands out the native handle to free.
    pub fn release(self) -> (r: usize)
        ensures
            r == self@.handle,
            r != 0,
    {
        proof {
            use_type_invariant(&self);
        }
        self.handle
    }
}


/// The byte that parts host and port in an address, `:`.
pub const COLON: u8 = 58;

/// The endpoint of a connection, as the two byte strings that the engine
/// takes.
#[derive(Debug)]
pub struct Address {
    host: Vec<u8>,
    port: Vec<u8>,
}

/// What an address is, to the contracts.
pub struct AddressView {
    pub host: Seq<u8>,
    pub port: Seq<u8>,
}

impl AddressView {
    /// The text that names this endpoint: host, colon, port.
    pub open spec fn text(self) -> Seq<u8> {
        self.host + seq![COLON] + self.port
    }

    /// Neither part holds a zero byte, so each can be handed to the engine
    /// as a terminated string, and the host ends at the first colon.
    pub open spec fn well_formed(self) -> bool {
        &&& !self.host.contains(0u8)
        &&& !self.port.contains(0u8)
        &&& !self.host.contains(COLON)
    }
}

impl View for Address {
    type V = AddressView;

    closed spec fn view(&self) -> AddressView {
        AddressView { host: self.host@, port: self.port@ }
    }
}

impl Address {
    #[verifier::type_invariant]
    spec fn inv(self) -> bool {
        self@.well_formed()
    }

    /// Splits `addr` at its first colon into host and port. There is no
    /// address in a text without a colon or with a zero byte.
    pub fn parse(addr: &str) -> (r: Option<Address>)
        ensures
            match r {
                Some(a) => a@.text() == addr.spec_bytes() && a@.well_formed(),
                None => !addr.spec_bytes().contains(COLON) || addr.spec_bytes().contains(0u8),
            },
    {
        let bytes: &[u8] = addr.as_bytes();
        let n: usize = bytes.len();
        let mut colon: Option<usize> = None;
        let mut i: usize = 0;
        while i < n
            invariant
                bytes@ == addr.spec_bytes(),
                n == bytes@.len(),
                i <= n,
                forall|k: int| 0 <= k < i ==> bytes@[k] != 0u8,
                colon is None ==> forall|k: int| 0 <= k < i ==> bytes@[k] != COLON,
                colon matches Some(c) ==> c < i && bytes@[c as int] == COLON && forall|k: int|
                    0 <= k < c ==> bytes@[k] != COLON,
            decreases n - i,
        {
            let b: u8 = bytes[i];
            if b == 0 {
                assert(bytes@[i as int] == 0u8);
                return None;
            }
            if b == COLON && colon.is_none() {
                colon = Some(i);
            }
            i += 1;
        }
        match colon {
            None => None,
            Some(c) => {
                let host: Vec<u8> = vstd::slice::slice_to_vec(
                    vstd::slice::slice_subrange(bytes, 0, c),
                );
                let port: Vec<u8> = vstd::slice::slice_to_vec(
                    vstd::slice::slice_subrange(bytes, c + 1, n),
                );
                assert(host@ + seq![COLON] + port@ =~= bytes@);
                Some(Address { host, port })
            },
        }
    }

    /// The host, without a terminator.
    pub fn host(&self) -> (r: &Vec<u8>)
        ensures
            r@ == self@.host,
            self@.well_formed(),
    {
        proof {
            use_type_invariant(self);
        }
        &self.host
    }

    /// The port, without a terminator.
    pub fn port(&self) -> (r: &Vec<u8>)
        ensures
            r@ == self@.port,
            self@.well_formed(),
    {
        proof {
            use_type_invariant(self);
        }
        &self.port
    }
}

/// Where a session is in its life.
#[derive(Clone, Copy, PartialEq, Eq, Debug, Structural)]
pub enum State {
    /// The engine has allocated the session.
    Created,
    /// A configuration is bound to the session.
    Configured,
    /// The handshake is done and bytes can move.
    Connected,
    /// The channel is shut down and the handle is freed.
    Closed,
    /// The engine refused a step. Only closing is left.
    Failed,
}

/// What a driver may ask of the engine on behalf of a session.
#[derive(Clone, Copy, PartialEq, Eq, Debug, Structural)]
pub enum Operation {
    /// Bind a configuration.
    Apply,
    /// Resolve the address and shake hands.
    Connect,
    /// Send bytes.
    Write,
    /// Receive bytes.
    Read,
    /// Ask for the text of the last error.
    Diagnose,
}

/// What a read or write came to.
#[derive(Clone, Copy, PartialEq, Eq, Debug, Structural)]
pub enum Progress {
    /// The engine was not ready. Make the same call again, with the same
    /// buffer and length.
    Retry,
    /// That many bytes were moved. For a read, zero means that the peer
    /// closed the stream.
    Done(usize),
    /// Nothing was moved.
    Failed(SessionError),
}

/// One step of tearing a session down.
#[derive(Clone, Copy, PartialEq, Eq, Debug, Structural)]
pub enum Step {
    /// Shut the channel of this handle down. A failure is of no account.
    Shutdown(usize),
    /// Free this handle.
    Release(usize),
}

/// What is known of a failure: what the engine refused, the endpoint if one
/// was named, and the engine's own words.
#[derive(Debug)]
pub struct Failure<'a> {
    pub kind: SessionError,
    pub target: Option<&'a Address>,
    pub diagnostic: &'a str,
}

/// What a failure is, to the contracts.
pub struct FailureView {
    pub kind: SessionError,
    pub target: Option<AddressView>,
    pub diagnostic: Seq<char>,
}

impl<'a> View for Failure<'a> {
    type V = FailureView;

    open spec fn view(&self) -> FailureView {
        FailureView {
            kind: self.kind,
            target: match self.target {
                Some(a) => Some(a@),
                None => None,
            },
            diagnostic: self.diagnostic@,
        }
    }
}

/// A secure-transport client session.
#[derive(Debug)]
pub struct Client {
    handle: usize,
    state: State,
    protocols: ProtocolVersionSet,
    target: Option<Address>,
    cause: Option<SessionError>,
}

/// What a session is, to the contracts.
pub struct ClientView {
    pub handle: usize,
    pub state: State,
    pub protocols: Set<ProtocolVersion>,
    pub target: Option<AddressView>,
    /// What the engine refused, once it has refused something.
    pub cause: Option<SessionError>,
}

impl ClientView {
    /// The handle is live, and a failed session knows what it failed at.
    pub open spec fn well_formed(self) -> bool {
        &&& self.handle != 0
        &&& self.state == State::Failed ==> self.cause is Some
    }

    /// The session after the engine refused what `cause` names.
    pub open spec fn failed_at(self, cause: SessionError) -> ClientView {
        ClientView { state: State::Failed, cause: Some(cause), ..self }
    }

    /// What is known of the failure of this session, with the engine's
    /// text `diagnostic`, if the session has failed.
    pub open spec fn failure(self, diagnostic: Seq<char>) -> Option<FailureView> {
        match self.cause {
            Some(kind) => Some(FailureView { kind, target: self.target, diagnostic }),
            None => None,
        }
    }

    /// Whether `op` may be asked of the engine now.
    pub open spec fn permits(self, op: Operation) -> bool {
        match op {
            Operation::Apply => self.state == State::Created,
            Operation::Connect => self.state == State::Configured,
            Operation::Write => self.state == State::Connected,
            Operation::Read => self.state == State::Connected,
            Operation::Diagnose => self.state != State::Closed,
        }
    }

    /// The session in another state.
    pub open spec fn moved_to(self, state: State) -> ClientView {
        ClientView { state, ..self }
    }

    /// The session after the engine answered `status` to binding a
    /// configuration with `protocols`, and what the caller is told.
    pub open spec fn apply(self, protocols: Set<ProtocolVersion>, status: int) -> (
        ClientView,
        Result<(), SessionError>,
    ) {
        if !self.permits(Operation::Apply) {
            (self, Err(SessionError::State))
        } else if status == 0 {
            (ClientView { state: State::Configured, protocols, ..self }, Ok(()))
        } else {
            (self.failed_at(SessionError::Configuration), Err(SessionError::Configuration))
        }
    }

    /// The session after the engine answered `status` to connecting to
    /// `target`, and what the caller is told.
    pub open spec fn connect(self, target: AddressView, status: int) -> (
        ClientView,
        Result<(), SessionError>,
    ) {
        if !self.permits(Operation::Connect) {
            (self, Err(SessionError::State))
        } else if status == 0 {
            (ClientView { state: State::Connected, target: Some(target), ..self }, Ok(()))
        } else {
            (
                ClientView { target: Some(target), ..self }.failed_at(SessionError::Connection),
                Err(SessionError::Connection),
            )
        }
    }

    /// The session after the engine answered `raw` to a read or a write,
    /// and what the caller is told.
    pub open spec fn transfer(self, raw: int) -> (ClientView, Progress) {
        if self.state != State::Connected {
            (self, Progress::Failed(SessionError::State))
        } else if is_retry(raw) {
            (self, Progress::Retry)
        } else if raw < 0 {
            (self.failed_at(SessionError::Io), Progress::Failed(SessionError::Io))
        } else {
            (self, Progress::Done(raw as usize))
        }
    }

    /// The session after closing, and the steps to perform, in order.
    pub open spec fn close(self) -> (ClientView, Seq<Step>) {
        if self.state == State::Closed {
            (self, Seq::<Step>::empty())
        } else {
            (
                self.moved_to(State::Closed),
                seq![Step::Shutdown(self.handle), Step::Release(self.handle)],
            )
        }
    }
}

/// Whether `raw` is one of the engine's two answers that mean: not ready,
/// call again.
pub open spec fn is_retry(raw: int) -> bool {
    raw == TLS_WANT_POLLIN || raw == TLS_WANT_POLLOUT
}

/// The view of an optional address.
pub open spec fn target_view(target: Option<Address>) -> Option<AddressView> {
    match target {
        Some(a) => Some(a@),
        None => None,
    }
}

impl View for Client {
    type V = ClientView;

    closed spec fn view(&self) -> ClientView {
        ClientView {
            handle: self.handle,
            state: self.state,
            protocols: self.protocols@,
            target: target_view(self.target),
            cause: self.cause,
        }
    }
}

impl Client {
    #[verifier::type_invariant]
    spec fn inv(self) -> bool {
        self@.well_formed()
    }

    /// Takes charge of the session that the engine allocated under
    /// `handle`. A null handle means that the engine could not allocate.
    pub fn new(handle: usize) -> (r: Result<Client, SessionError>)
        ensures
            match r {
                Ok(c) => handle != 0 && c@ == (ClientView {
                    handle,
                    state: State::Created,
                    protocols: Set::<ProtocolVersion>::empty(),
                    target: None,
                    cause: None,
                }),
                Err(e) => handle == 0 && e == SessionError::Allocation,
            },
    {
        if handle == 0 {
            Err(SessionError::Allocation)
        } else {
            Ok(
                Client {
                    handle,
                    state: State::Created,
                    protocols: ProtocolVersionSet::empty(),
                    target: None,
                    cause: None,
                },
            )
        }
    }

    /// The state of the session.
    pub fn state(&self) -> (r: State)
        ensures
            r == self@.state,
    {
        self.state
    }

    /// The endpoint of the last attempt to connect, if there was one.
    pub fn target(&self) -> (r: Option<&Address>)
        ensures
            match r {
                Some(a) => self@.target == Some(a@),
                None => self@.target is None,
            },
    {
        self.target.as_ref()
    }

    /// The versions that the bound configuration allows.
    pub fn protocols(&self) -> (r: ProtocolVersionSet)
        ensures
            r@ == self@.protocols,
    {
        self.protocols
    }

    /// Puts the engine's text `diagnostic` together with what the session
    /// knows of its failure. A session that is in the failed state always
    /// has a failure to tell of, and keeps it when it is closed.
    pub fn failure<'a>(&'a self, diagnostic: &'a str) -> (r: Option<Failure<'a>>)
        ensures
            match r {
                Some(f) => self@.failure(diagnostic@) == Some(f@),
                None => self@.failure(diagnostic@) is None,
            },
            self@.state == State::Failed ==> r is Some,
    {
        proof {
            use_type_invariant(self);
        }
        match self.cause {
            Some(kind) => Some(Failure { kind, target: self.target.as_ref(), diagnostic }),
            None => None,
        }
    }

    /// Hands out the native handle for `op`, if `op` may be asked of the
    /// engine now. Ask before every call to the engine.
    pub fn request(&self, op: Operation) -> (r: Result<usize, SessionError>)
        ensures
            self@.permits(op) ==> r == Ok::<usize, SessionError>(self@.handle),
            !self@.permits(op) ==> r == Err::<usize, SessionError>(SessionError::State),
            self@.handle != 0,
    {
        proof {
            use_type_invariant(self);
        }
        let allowed: bool = match op {
            Operation::Apply => self.state == State::Created,
            Operation::Connect => self.state == State::Configured,
            Operation::Write => self.state == State::Connected,
            Operation::Read => self.state == State::Connected,
            Operation::Diagnose => self.state != State::Closed,
        };
        if allowed {
            Ok(self.handle)
        } else {
            Err(SessionError::State)
        }
    }

    /// Records the engine's answer `status` to binding `configuration` to
    /// the session: zero means that it is bound.
    pub fn apply(&mut self, configuration: &Configuration, status: i32) -> (r: Result<
        (),
        SessionError,
    >)
        ensures
            (final(self)@, r) == old(self)@.apply(configuration@.protocols, status as int),
    {
        proof {
            use_type_invariant(&*self);
        }
        if self.state != State::Created {
            Err(SessionError::State)
        } else if status == 0 {
            self.state = State::Configured;
            self.protocols = configuration.protocols();
            Ok(())
        } else {
            self.cause = Some(SessionError::Configuration);
            self.state = State::Failed;
            Err(SessionError::Configuration)
        }
    }

    /// Records the engine's answer `status` to connecting to `target`: zero
    /// means that the handshake is done.
    pub fn connect(&mut self, target: Address, status: i32) -> (r: Result<(), SessionError>)
        ensures
            (final(self)@, r) == old(self)@.connect(target@, status as int),
    {
        proof {
            use_type_invariant(&*self);
        }
        if self.state != State::Configured {
            Err(SessionError::State)
        } else if status == 0 {
            self.state = State::Connected;
            self.target = Some(target);
            Ok(())
        } else {
            self.cause = Some(SessionError::Connection);
            self.target = Some(target);
            self.state = State::Failed;
            Err(SessionError::Connection)
        }
    }

    /// Records the engine's answer `raw` to a write.
    pub fn write(&mut self, raw: isize) -> (r: Progress)
        ensures
            (final(self)@, r) == old(self)@.transfer(raw as int),
    {
        self.transfer(raw)
    }

    /// Records the engine's answer `raw` to a read.
    pub fn read(&mut self, raw: isize) -> (r: Progress)
        ensures
            (final(self)@, r) == old(self)@.transfer(raw as int),
    {
        self.transfer(raw)
    }

    fn transfer(&mut self, raw: isize) -> (r: Progress)
        ensures
            (final(self)@, r) == old(self)@.transfer(raw as int),
    {
        proof {
            use_type_invariant(&*self);
        }
        if self.state != State::Connected {
            Progress::Failed(SessionError::State)
        } else if raw == TLS_WANT_POLLOUT || raw == TLS_WANT_POLLIN {
            Progress::Retry
        } else if raw < 0 {
            self.cause = Some(SessionError::Io);
            self.state = State::Failed;
            Progress::Failed(SessionError::Io)
        } else {
            Progress::Done(raw as usize)
        }
    }

    /// Ends the session and returns what is left to do with the engine, in
    /// order: shut the channel down, then free the handle. A session that is
    /// closed already has nothing left to do.
    pub fn close(&mut self) -> (r: Vec<Step>)
        ensures
            (final(self)@, r@) == old(self)@.close(),
    {
        proof {
            use_type_invariant(&*self);
        }
        let mut steps: Vec<Step> = Vec::new();
        if self.state != State::Closed {
            steps.push(Step::Shutdown(self.handle));
            steps.push(Step::Release(self.handle));
            self.state = State::Closed;
        }
        assert(steps@ =~= old(self)@.close().1);
        steps
    }
}


/// One thing that happens to a session: an answer of the engine to an
/// operation, or the closing of the session.
pub enum Event {
    Apply(Set<ProtocolVersion>, int),
    Connect(AddressView, int),
    Write(int),
    Read(int),
    Close,
}

impl ClientView {
    /// The session after `event`, and the teardown steps that it gave rise
    /// to.
    pub open spec fn step(self, event: Event) -> (ClientView, Seq<Step>) {
        match event {
            Event::Apply(protocols, status) => (
                self.apply(protocols, status).0,
                Seq::<Step>::empty(),
            ),
            Event::Connect(target, status) => (
                self.connect(target, status).0,
                Seq::<Step>::empty(),
            ),
            Event::Write(raw) => (self.transfer(raw).0, Seq::<Step>::empty()),
            Event::Read(raw) => (self.transfer(raw).0, Seq::<Step>::empty()),
            Event::Close => self.close(),
        }
    }

    /// The session after `events`, one after the other, and all the teardown
    /// steps that they gave rise to, in order.
    pub open spec fn run(self, events: Seq<Event>) -> (ClientView, Seq<Step>)
        decreases events.len(),
    {
        if events.len() == 0 {
            (self, Seq::<Step>::empty())
        } else {
            let (before, steps) = self.run(events.drop_last());
            let (after, more) = before.step(events.last());
            (after, steps + more)
        }
    }
}

/// The answers `raws` as the events of as many writes.
pub open spec fn writes(raws: Seq<int>) -> Seq<Event> {
    Seq::new(raws.len(), |i: int| Event::Write(raws[i]))
}

/// An operation that is asked out of turn is refused and leaves the session
/// as it was: binding a configuration anywhere but in a fresh session,
/// connecting before a configuration is bound or after a connection was
/// made, reading or writing before the connection or after closing. A
/// closed session hands its handle out for nothing, a failed one only for
/// the text of the error.
pub proof fn lemma_out_of_turn_is_refused(
    c: ClientView,
    protocols: Set<ProtocolVersion>,
    target: AddressView,
    status: int,
    raw: int,
)
    ensures
        c.state != State::Created ==> c.apply(protocols, status) == (
            c,
            Err::<(), SessionError>(SessionError::State),
        ),
        c.state != State::Configured ==> c.connect(target, status) == (
            c,
            Err::<(), SessionError>(SessionError::State),
        ),
        c.state != State::Connected ==> c.transfer(raw) == (
            c,
            Progress::Failed(SessionError::State),
        ),
        forall|op: Operation| c.state == State::Closed ==> !c.permits(op),
        forall|op: Operation| c.state == State::Failed && c.permits(op) ==> op == Operation::Diagnose,
{
    assert forall|op: Operation| c.state == State::Closed implies !c.permits(op) by {}
    assert forall|op: Operation| c.state == State::Failed && c.permits(op) implies op
        == Operation::Diagnose by {}
}

/// However often the engine answers a write with one of its two "not ready"
/// answers, the session stays as it is and the caller is told nothing but to
/// call again; the count that follows is what the caller gets.
pub proof fn lemma_retries_are_absorbed(c: ClientView, raws: Seq<int>, count: usize)
    requires
        c.state == State::Connected,
        forall|i: int| 0 <= i < raws.len() ==> is_retry(#[trigger] raws[i]),
        count <= isize::MAX,
    ensures
        forall|i: int| 0 <= i < raws.len() ==> c.transfer(#[trigger] raws[i]) == (c, Progress::Retry),
        c.run(writes(raws)) == (c, Seq::<Step>::empty()),
        c.run(writes(raws)).0.transfer(count as int) == (c, Progress::Done(count)),
    decreases raws.len(),
{
    if raws.len() > 0 {
        let shorter = raws.drop_last();
        lemma_retries_are_absorbed(c, shorter, count);
        assert(writes(raws).drop_last() =~= writes(shorter));
        assert(writes(raws).last() == Event::Write(raws.last()));
        assert(is_retry(raws[raws.len() - 1]));
        assert(Seq::<Step>::empty() + Seq::<Step>::empty() =~= Seq::<Step>::empty());
    }
}

/// Whatever happens to a session, its handle is released at most once, and
/// exactly once if it ends closed: the teardown steps of a whole history
/// are the shutdown and the release of its one handle, in that order, or
/// none where the session is still open or was closed before.
pub proof fn lemma_released_once(c: ClientView, events: Seq<Event>)
    ensures
        c.run(events).0.handle == c.handle,
        c.well_formed() ==> c.run(events).0.well_formed(),
        c.state == State::Closed ==> c.run(events) == (c, Seq::<Step>::empty()),
        c.state != State::Closed && c.run(events).0.state == State::Closed ==> c.run(events).1
            == seq![Step::Shutdown(c.handle), Step::Release(c.handle)],
        c.run(events).0.state != State::Closed ==> c.run(events).1 == Seq::<Step>::empty(),
    decreases events.len(),
{
    if events.len() > 0 {
        lemma_released_once(c, events.drop_last());
        let (before, steps) = c.run(events.drop_last());
        let (after, more) = before.step(events.last());
        assert(steps + Seq::<Step>::empty() =~= steps);
        assert(Seq::<Step>::empty() + more =~= more);
    }
}

/// A session whose connect failed is not lost: it tells what failed and
/// for which endpoint, closing it shuts down and releases its handle, and
/// closing it again does nothing.
pub proof fn lemma_failed_connect_is_released(
    c: ClientView,
    target: AddressView,
    status: int,
    diagnostic: Seq<char>,
)
    requires
        c.state == State::Configured,
        status != 0,
    ensures
        ({
            let failed = c.connect(target, status).0;
            &&& c.connect(target, status).1 == Err::<(), SessionError>(SessionError::Connection)
            &&& failed.state == State::Failed
            &&& failed.handle == c.handle
            &&& failed.failure(diagnostic) == Some(
                FailureView { kind: SessionError::Connection, target: Some(target), diagnostic },
            )
            &&& failed.close().0.failure(diagnostic) == failed.failure(diagnostic)
            &&& failed.close().1 == seq![Step::Shutdown(c.handle), Step::Release(c.handle)]
            &&& failed.close().0.state == State::Closed
            &&& failed.close().0.close() == (failed.close().0, Seq::<Step>::empty())
        }),
{
}

} // verus!
