use zulip_bot::tls::{
    Address, Client, Configuration, Operation, Progress, ProtocolVersion, ProtocolVersionSet,
    SessionError, State, Step, TLS_WANT_POLLIN, TLS_WANT_POLLOUT,
};

const HANDLE: usize = 0x1000;

fn configuration() -> Configuration {
    let mut c = Configuration::create(0x2000).unwrap();
    assert_eq!(c.allow_protocols(ProtocolVersionSet::modern(), 0), Ok(()));
    c
}

fn address() -> Address {
    Address::parse("example.org:443").unwrap()
}

fn configured() -> Client {
    let mut c = Client::new(HANDLE).unwrap();
    assert_eq!(c.apply(&configuration(), 0), Ok(()));
    c
}

fn connected() -> Client {
    let mut c = configured();
    assert_eq!(c.connect(address(), 0), Ok(()));
    c
}

#[test]
fn protocol_sets() {
    let none = ProtocolVersionSet::empty();
    assert_eq!(none.mask(), 0);
    assert!(!none.contains(ProtocolVersion::Tls12));
    assert!(!none.contains(ProtocolVersion::Tls13));
    let old = none.with(ProtocolVersion::Tls12);
    assert_eq!(old.mask(), 1 << 3);
    assert!(old.contains(ProtocolVersion::Tls12));
    assert!(!old.contains(ProtocolVersion::Tls13));
    let new = none.with(ProtocolVersion::Tls13);
    assert_eq!(new.mask(), 1 << 4);
    assert_eq!(new.with(ProtocolVersion::Tls13).mask(), 1 << 4);
    let both = ProtocolVersionSet::modern();
    assert_eq!(both.mask(), (1 << 4) | (1 << 3));
    assert!(both.contains(ProtocolVersion::Tls12));
    assert!(both.contains(ProtocolVersion::Tls13));
}

#[test]
fn configuration_needs_a_handle() {
    assert_eq!(Configuration::create(0).err(), Some(SessionError::Allocation));
    let c = Configuration::create(7).unwrap();
    assert_eq!(c.handle(), 7);
    assert_eq!(c.protocols().mask(), 0);
    assert_eq!(c.release(), 7);
}

#[test]
fn configuration_records_protocols() {
    let mut c = Configuration::create(7).unwrap();
    assert_eq!(
        c.allow_protocols(ProtocolVersionSet::modern(), -1),
        Err(SessionError::Configuration)
    );
    assert_eq!(c.protocols().mask(), 0);
    assert_eq!(c.allow_protocols(ProtocolVersionSet::modern(), 0), Ok(()));
    assert_eq!(c.protocols().mask(), 24);
    assert_eq!(c.handle(), 7);
}

#[test]
fn address_splits_at_the_first_colon() {
    let a = Address::parse("leas-elia-diam.zulipchat.com:443").unwrap();
    assert_eq!(a.host().as_slice(), b"leas-elia-diam.zulipchat.com");
    assert_eq!(a.port().as_slice(), b"443");
    let b = Address::parse("a:b:c").unwrap();
    assert_eq!(b.host().as_slice(), b"a");
    assert_eq!(b.port().as_slice(), b"b:c");
    let c = Address::parse(":").unwrap();
    assert_eq!(c.host().as_slice(), b"");
    assert_eq!(c.port().as_slice(), b"");
}

#[test]
fn address_needs_a_colon_and_no_zero_byte() {
    assert!(Address::parse("").is_none());
    assert!(Address::parse("example.org").is_none());
    assert!(Address::parse("exam\0ple.org:443").is_none());
    assert!(Address::parse("example.org:4\043").is_none());
}

#[test]
fn session_needs_a_handle() {
    assert_eq!(Client::new(0).err(), Some(SessionError::Allocation));
    let c = Client::new(HANDLE).unwrap();
    assert_eq!(c.state(), State::Created);
    assert!(c.target().is_none());
    assert_eq!(c.protocols().mask(), 0);
}

#[test]
fn lifecycle_in_order() {
    let mut c = Client::new(HANDLE).unwrap();
    assert_eq!(c.request(Operation::Apply), Ok(HANDLE));
    assert_eq!(c.apply(&configuration(), 0), Ok(()));
    assert_eq!(c.state(), State::Configured);
    assert_eq!(c.protocols().mask(), 24);
    assert_eq!(c.request(Operation::Connect), Ok(HANDLE));
    assert_eq!(c.connect(address(), 0), Ok(()));
    assert_eq!(c.state(), State::Connected);
    assert_eq!(c.target().unwrap().host().as_slice(), b"example.org");
    assert_eq!(c.target().unwrap().port().as_slice(), b"443");
    assert_eq!(c.request(Operation::Write), Ok(HANDLE));
    assert_eq!(c.write(120), Progress::Done(120));
    assert_eq!(c.request(Operation::Read), Ok(HANDLE));
    assert_eq!(c.read(64), Progress::Done(64));
    assert_eq!(c.read(0), Progress::Done(0));
    assert_eq!(c.state(), State::Connected);
    assert_eq!(c.close(), vec![Step::Shutdown(HANDLE), Step::Release(HANDLE)]);
    assert_eq!(c.state(), State::Closed);
}

#[test]
fn connect_before_apply_is_refused() {
    let mut c = Client::new(HANDLE).unwrap();
    assert_eq!(c.request(Operation::Connect), Err(SessionError::State));
    assert_eq!(c.connect(address(), 0), Err(SessionError::State));
    assert_eq!(c.state(), State::Created);
    assert!(c.target().is_none());
}

#[test]
fn apply_twice_is_refused() {
    let mut c = configured();
    assert_eq!(c.request(Operation::Apply), Err(SessionError::State));
    assert_eq!(c.apply(&configuration(), 0), Err(SessionError::State));
    assert_eq!(c.state(), State::Configured);
}

#[test]
fn refused_configuration_fails_the_session() {
    let mut c = Client::new(HANDLE).unwrap();
    assert_eq!(c.apply(&configuration(), -1), Err(SessionError::Configuration));
    assert_eq!(c.state(), State::Failed);
    assert_eq!(c.request(Operation::Connect), Err(SessionError::State));
    assert_eq!(c.close(), vec![Step::Shutdown(HANDLE), Step::Release(HANDLE)]);
}

#[test]
fn io_before_connect_is_refused() {
    let mut c = configured();
    assert_eq!(c.request(Operation::Write), Err(SessionError::State));
    assert_eq!(c.request(Operation::Read), Err(SessionError::State));
    assert_eq!(c.write(10), Progress::Failed(SessionError::State));
    assert_eq!(c.read(10), Progress::Failed(SessionError::State));
    assert_eq!(c.state(), State::Configured);
}

#[test]
fn io_after_close_is_refused() {
    let mut c = connected();
    c.close();
    assert_eq!(c.request(Operation::Write), Err(SessionError::State));
    assert_eq!(c.request(Operation::Read), Err(SessionError::State));
    assert_eq!(c.write(10), Progress::Failed(SessionError::State));
    assert_eq!(c.read(10), Progress::Failed(SessionError::State));
    assert_eq!(c.write(TLS_WANT_POLLOUT), Progress::Failed(SessionError::State));
    assert_eq!(c.state(), State::Closed);
}

#[test]
fn write_absorbs_retries() {
    for k in 0..50usize {
        let mut c = connected();
        let mut calls: usize = 0;
        let outcome = loop {
            let raw = if calls < k { TLS_WANT_POLLOUT } else { 77 };
            calls += 1;
            match c.write(raw) {
                Progress::Retry => {
                    assert_eq!(c.state(), State::Connected);
                    continue;
                }
                other => break other,
            }
        };
        assert_eq!(outcome, Progress::Done(77));
        assert_eq!(calls, k + 1);
        assert_eq!(c.state(), State::Connected);
    }
}

#[test]
fn both_sentinels_mean_retry_in_both_directions() {
    let mut c = connected();
    assert_eq!(TLS_WANT_POLLIN, -2);
    assert_eq!(TLS_WANT_POLLOUT, -3);
    assert_eq!(c.write(TLS_WANT_POLLIN), Progress::Retry);
    assert_eq!(c.write(TLS_WANT_POLLOUT), Progress::Retry);
    assert_eq!(c.read(TLS_WANT_POLLIN), Progress::Retry);
    assert_eq!(c.read(TLS_WANT_POLLOUT), Progress::Retry);
    assert_eq!(c.read(5), Progress::Done(5));
    assert_eq!(c.state(), State::Connected);
}

#[test]
fn hard_error_ends_io() {
    let mut c = connected();
    assert_eq!(c.write(-1), Progress::Failed(SessionError::Io));
    assert_eq!(c.state(), State::Failed);
    assert_eq!(c.write(10), Progress::Failed(SessionError::State));
    assert_eq!(c.read(10), Progress::Failed(SessionError::State));
    assert_eq!(c.close(), vec![Step::Shutdown(HANDLE), Step::Release(HANDLE)]);
    let mut d = connected();
    assert_eq!(d.read(-4), Progress::Failed(SessionError::Io));
    assert_eq!(d.state(), State::Failed);
    let mut e = connected();
    assert_eq!(e.read(isize::MIN), Progress::Failed(SessionError::Io));
    assert_eq!(e.write(isize::MAX), Progress::Failed(SessionError::State));
}

#[test]
fn largest_count_is_a_count() {
    let mut c = connected();
    assert_eq!(c.write(isize::MAX), Progress::Done(isize::MAX as usize));
}

#[test]
fn failed_connect_is_released_once() {
    let mut c = configured();
    assert_eq!(c.connect(address(), -1), Err(SessionError::Connection));
    assert_eq!(c.state(), State::Failed);
    assert_eq!(c.target().unwrap().host().as_slice(), b"example.org");
    assert_eq!(c.request(Operation::Connect), Err(SessionError::State));
    assert_eq!(c.connect(address(), 0), Err(SessionError::State));
    {
        let failure = c.failure("handshake failed").unwrap();
        assert_eq!(failure.kind, SessionError::Connection);
        assert_eq!(failure.target.unwrap().host().as_slice(), b"example.org");
        assert_eq!(failure.target.unwrap().port().as_slice(), b"443");
        assert_eq!(failure.diagnostic, "handshake failed");
    }
    assert_eq!(c.close(), vec![Step::Shutdown(HANDLE), Step::Release(HANDLE)]);
    assert_eq!(c.close(), vec![]);
    assert_eq!(c.close(), vec![]);
    assert_eq!(c.state(), State::Closed);
    assert_eq!(c.failure("").unwrap().kind, SessionError::Connection);
}

#[test]
fn failure_tells_what_the_engine_refused() {
    let fresh = Client::new(HANDLE).unwrap();
    assert!(fresh.failure("nothing").is_none());
    assert!(connected().failure("nothing").is_none());

    let mut refused = Client::new(HANDLE).unwrap();
    assert_eq!(refused.apply(&configuration(), 1), Err(SessionError::Configuration));
    let failure = refused.failure("no such protocol").unwrap();
    assert_eq!(failure.kind, SessionError::Configuration);
    assert!(failure.target.is_none());
    assert_eq!(failure.diagnostic, "no such protocol");

    let mut broken = connected();
    assert_eq!(broken.write(-1), Progress::Failed(SessionError::Io));
    let failure = broken.failure("connection reset").unwrap();
    assert_eq!(failure.kind, SessionError::Io);
    assert_eq!(failure.target.unwrap().host().as_slice(), b"example.org");
    assert_eq!(failure.diagnostic, "connection reset");

    let mut out_of_turn = Client::new(HANDLE).unwrap();
    assert_eq!(out_of_turn.write(5), Progress::Failed(SessionError::State));
    assert!(out_of_turn.failure("nothing").is_none());
}

#[test]
fn every_state_is_torn_down_once() {
    let mut fresh = Client::new(HANDLE).unwrap();
    assert_eq!(fresh.close(), vec![Step::Shutdown(HANDLE), Step::Release(HANDLE)]);
    assert_eq!(fresh.close(), vec![]);
    let mut ready = configured();
    assert_eq!(ready.close(), vec![Step::Shutdown(HANDLE), Step::Release(HANDLE)]);
    assert_eq!(ready.close(), vec![]);
    let mut live = connected();
    assert_eq!(live.close(), vec![Step::Shutdown(HANDLE), Step::Release(HANDLE)]);
    assert_eq!(live.close(), vec![]);
    assert_eq!(live.apply(&configuration(), 0), Err(SessionError::State));
    assert_eq!(live.state(), State::Closed);
}

#[test]
fn error_text_can_be_asked_until_closed() {
    let mut c = Client::new(HANDLE).unwrap();
    assert_eq!(c.request(Operation::Diagnose), Ok(HANDLE));
    assert_eq!(c.apply(&configuration(), -1), Err(SessionError::Configuration));
    assert_eq!(c.request(Operation::Diagnose), Ok(HANDLE));
    assert_eq!(c.request(Operation::Apply), Err(SessionError::State));
    c.close();
    assert_eq!(c.request(Operation::Diagnose), Err(SessionError::State));
    let mut d = connected();
    assert_eq!(d.read(-1), Progress::Failed(SessionError::Io));
    assert_eq!(d.request(Operation::Diagnose), Ok(HANDLE));
    assert_eq!(d.request(Operation::Read), Err(SessionError::State));
}
