//! The state machine of a TCP socket resource.
//!
//! Each operation on a socket first checks that the socket is in a state in
//! which the operation makes sense, then performs the operating-system call
//! (outside this library), then moves the socket to its next state according
//! to the outcome of that call.

use vstd::prelude::*;

verus! {

/// The life cycle of a TCP socket.
#[derive(Debug, Clone, Copy, PartialEq, Eq, Structural)]
pub enum TcpState {
    /// The initial state.
    Default,
    /// Binding started via `start_bind`.
    BindStarted,
    /// Binding finished via `finish_bind`; the socket has an address but is
    /// not yet listening for connections.
    Bound,
    /// Listening started via `listen_start`.
    ListenStarted,
    /// The socket is now listening and waiting for an incoming connection.
    Listening,
    /// An outgoing connection is started via `start_connect`.
    Connecting,
    /// An outgoing connection is ready to be established.
    ConnectReady,
    /// An outgoing connection has been established.
    Connected,
}

/// Errors reported by socket operations.
#[derive(Debug, Clone, Copy, PartialEq, Eq, Structural)]
pub enum ErrorCode {
    NotInProgress,
    AlreadyConnected,
    AlreadyListening,
    ConcurrencyConflict,
    WouldBlock,
    OutOfMemory,
    NotSupported,
    /// An error reported by the operating system, by its error number.
    Os(i32),
}

/// What the operating system reported for a non-blocking connect.
#[derive(Debug, Clone, Copy, PartialEq, Eq, Structural)]
pub enum ConnectOutcome {
    /// The connection was established at once.
    Connected,
    /// The connection is in progress.
    InProgress,
    /// The connection failed.
    Failed(ErrorCode),
}

/// What a zero-timeout poll and the socket's error option reported for a
/// connection in progress.
#[derive(Debug, Clone, Copy, PartialEq, Eq, Structural)]
pub enum ConnectProbe {
    /// The socket is not writable yet.
    Pending,
    /// The connection completed successfully.
    Established,
    /// The connection failed.
    Failed(ErrorCode),
}

/// Smallest backlog accepted for `listen`.
pub const MIN_BACKLOG: i32 = 1;

/// Largest backlog accepted for `listen`.
pub const MAX_BACKLOG: i32 = 0x7fff_ffff;

/// The backlog that a requested `value` is clamped to.
pub open spec fn clamped_backlog(value: u64) -> i32 {
    if value > MAX_BACKLOG {
        MAX_BACKLOG
    } else if value < MIN_BACKLOG {
        MIN_BACKLOG
    } else {
        value as i32
    }
}

/// Silently clamps a requested backlog size into `MIN_BACKLOG ..=
/// MAX_BACKLOG`, as operating systems do.
pub fn clamp_backlog(value: u64) -> (r: i32)
    ensures
        r == clamped_backlog(value),
        MIN_BACKLOG <= r <= MAX_BACKLOG,
{
    if value > 0x7fff_ffff {
        MAX_BACKLOG
    } else if value < 1 {
        MIN_BACKLOG
    } else {
        value as i32
    }
}

/// The IP address family of a socket.
#[derive(Debug, Clone, Copy, PartialEq, Eq, Structural)]
pub enum IpAddressFamily {
    Ipv4,
    Ipv6,
}

/// The `SO_DOMAIN` value of an IPv4 socket, as Linux numbers it.
pub const AF_INET: u16 = 2;

/// The `SO_DOMAIN` value of an IPv6 socket, as Linux numbers it.
pub const AF_INET6: u16 = 10;

/// The address family of a socket whose `SO_DOMAIN` option reads
/// `domain`; any domain other than IPv4 and IPv6 is not supported.
pub fn address_family_from_domain(domain: u16) -> (r: Result<IpAddressFamily, ErrorCode>)
    ensures
        domain == AF_INET ==> r == Ok::<IpAddressFamily, ErrorCode>(IpAddressFamily::Ipv4),
        domain == AF_INET6 ==> r == Ok::<IpAddressFamily, ErrorCode>(IpAddressFamily::Ipv6),
        domain != AF_INET && domain != AF_INET6 ==> r == Err::<IpAddressFamily, ErrorCode>(
            ErrorCode::NotSupported,
        ),
{
    if domain == AF_INET {
        Ok(IpAddressFamily::Ipv4)
    } else if domain == AF_INET6 {
        Ok(IpAddressFamily::Ipv6)
    } else {
        Err(ErrorCode::NotSupported)
    }
}

/// The address family of a socket where `SO_DOMAIN` cannot be read, from
/// which options it accepts: one that has an IPv6 unicast hop limit is an
/// IPv6 socket, else one that has an IP time-to-live is an IPv4 socket;
/// otherwise the family is not supported.
pub fn address_family_from_probes(has_ipv6_hops: bool, has_ip_ttl: bool) -> (r: Result<IpAddressFamily, ErrorCode>)
    ensures
        has_ipv6_hops ==> r == Ok::<IpAddressFamily, ErrorCode>(IpAddressFamily::Ipv6),
        !has_ipv6_hops && has_ip_ttl ==> r == Ok::<IpAddressFamily, ErrorCode>(IpAddressFamily::Ipv4),
        !has_ipv6_hops && !has_ip_ttl ==> r == Err::<IpAddressFamily, ErrorCode>(ErrorCode::NotSupported),
{
    if has_ipv6_hops {
        Ok(IpAddressFamily::Ipv6)
    } else if has_ip_ttl {
        Ok(IpAddressFamily::Ipv4)
    } else {
        Err(ErrorCode::NotSupported)
    }
}

/// Converts a requested buffer size; sizes that do not fit in `usize` are
/// reported as `OutOfMemory`.
pub fn buffer_size(value: u64) -> (r: Result<usize, ErrorCode>)
    ensures
        value <= usize::MAX ==> r == Ok::<usize, ErrorCode>(value as usize),
        value > usize::MAX ==> r == Err::<usize, ErrorCode>(ErrorCode::OutOfMemory),
{
    if value <= usize::MAX as u64 {
        Ok(value as usize)
    } else {
        Err(ErrorCode::OutOfMemory)
    }
}

/// The host's view of a TCP socket: its state and the backlog stashed for
/// the first `listen`.
#[derive(Debug, Clone, Copy, PartialEq, Eq, Structural)]
pub struct TcpSocketState {
    pub tcp_state: TcpState,
    pub listen_backlog_size: Option<i32>,
}

/// The error for an operation that needs the socket in `expected` state.
pub open spec fn not_in(state: TcpState, expected: TcpState) -> Result<(), ErrorCode> {
    if state == expected {
        Ok(())
    } else {
        Err(ErrorCode::NotInProgress)
    }
}

/// The outcome of checking whether a connect may start.
pub open spec fn connect_check(state: TcpState) -> Result<(), ErrorCode> {
    match state {
        TcpState::Default => Ok(()),
        TcpState::Connected => Err(ErrorCode::AlreadyConnected),
        _ => Err(ErrorCode::NotInProgress),
    }
}

/// The outcome of checking whether listening may start.
pub open spec fn listen_check(state: TcpState) -> Result<(), ErrorCode> {
    match state {
        TcpState::Bound => Ok(()),
        TcpState::ListenStarted => Err(ErrorCode::AlreadyListening),
        TcpState::Connected => Err(ErrorCode::AlreadyConnected),
        _ => Err(ErrorCode::NotInProgress),
    }
}

/// The outcome of checking whether a connection may be accepted.
pub open spec fn accept_check(state: TcpState) -> Result<(), ErrorCode> {
    match state {
        TcpState::Listening => Ok(()),
        TcpState::Connected => Err(ErrorCode::AlreadyConnected),
        _ => Err(ErrorCode::NotInProgress),
    }
}

impl TcpSocketState {
    /// A fresh socket.
    pub fn new() -> (r: TcpSocketState)
        ensures
            r.tcp_state == TcpState::Default,
            r.listen_backlog_size == None::<i32>,
    {
        TcpSocketState { tcp_state: TcpState::Default, listen_backlog_size: None }
    }

    /// A socket for a connection that was just accepted.
    pub fn accepted() -> (r: TcpSocketState)
        ensures
            r.tcp_state == TcpState::Connected,
            r.listen_backlog_size == None::<i32>,
    {
        TcpSocketState { tcp_state: TcpState::Connected, listen_backlog_size: None }
    }

    /// Whether binding may start: only from the initial state.
    pub fn start_bind_check(&self) -> (r: Result<(), ErrorCode>)
        ensures
            r == not_in(self.tcp_state, TcpState::Default),
    {
        match self.tcp_state {
            TcpState::Default => Ok(()),
            _ => Err(ErrorCode::NotInProgress),
        }
    }

    /// Records the outcome of the bind call: on success binding has started.
    pub fn start_bind_complete(&mut self, os: Result<(), ErrorCode>) -> (r: Result<(), ErrorCode>)
        requires
            old(self).tcp_state == TcpState::Default,
        ensures
            r == os,
            final(self).tcp_state == if os is Ok { TcpState::BindStarted } else { TcpState::Default },
            final(self).listen_backlog_size == old(self).listen_backlog_size,
    {
        match os {
            Ok(()) => {
                self.tcp_state = TcpState::BindStarted;
                os
            },
            Err(_) => os,
        }
    }

    /// Finishes binding.
    pub fn finish_bind(&mut self) -> (r: Result<(), ErrorCode>)
        ensures
            r == not_in(old(self).tcp_state, TcpState::BindStarted),
            final(self).tcp_state == if r is Ok { TcpState::Bound } else { old(self).tcp_state },
            final(self).listen_backlog_size == old(self).listen_backlog_size,
    {
        match self.tcp_state {
            TcpState::BindStarted => {},
            _ => return Err(ErrorCode::NotInProgress),
        }
        self.tcp_state = TcpState::Bound;
        Ok(())
    }

    /// Whether a connect may start: only from the initial state.
    pub fn start_connect_check(&self) -> (r: Result<(), ErrorCode>)
        ensures
            r == connect_check(self.tcp_state),
            r is Ok <==> self.tcp_state == TcpState::Default,
            self.tcp_state == TcpState::Connected ==> r == Err::<(), ErrorCode>(ErrorCode::AlreadyConnected),
            self.tcp_state != TcpState::Default && self.tcp_state != TcpState::Connected ==> r == Err::<
                (),
                ErrorCode,
            >(ErrorCode::NotInProgress),
    {
        match self.tcp_state {
            TcpState::Default => Ok(()),
            TcpState::Connected => Err(ErrorCode::AlreadyConnected),
            _ => Err(ErrorCode::NotInProgress),
        }
    }

    /// Records the outcome of the non-blocking connect call.
    pub fn start_connect_complete(&mut self, os: ConnectOutcome) -> (r: Result<(), ErrorCode>)
        requires
            old(self).tcp_state == TcpState::Default,
        ensures
            final(self).listen_backlog_size == old(self).listen_backlog_size,
            match os {
                ConnectOutcome::Connected => r is Ok && final(self).tcp_state == TcpState::ConnectReady,
                ConnectOutcome::InProgress => r is Ok && final(self).tcp_state == TcpState::Connecting,
                ConnectOutcome::Failed(e) => r == Err::<(), ErrorCode>(e) && final(self).tcp_state
                    == TcpState::Default,
            },
    {
        match os {
            ConnectOutcome::Connected => {
                self.tcp_state = TcpState::ConnectReady;
                Ok(())
            },
            ConnectOutcome::InProgress => {
                self.tcp_state = TcpState::Connecting;
                Ok(())
            },
            ConnectOutcome::Failed(e) => Err(e),
        }
    }

    /// Whether finishing a connect needs the operating system to be asked
    /// if the connection completed (`Ok(true)`), can go ahead at once
    /// (`Ok(false)`), or is out of place.
    pub fn finish_connect_check(&self) -> (r: Result<bool, ErrorCode>)
        ensures
            self.tcp_state == TcpState::Connecting ==> r == Ok::<bool, ErrorCode>(true),
            self.tcp_state == TcpState::ConnectReady ==> r == Ok::<bool, ErrorCode>(false),
            self.tcp_state != TcpState::Connecting && self.tcp_state != TcpState::ConnectReady ==> r
                == Err::<bool, ErrorCode>(ErrorCode::NotInProgress),
    {
        match self.tcp_state {
            TcpState::ConnectReady => Ok(false),
            TcpState::Connecting => Ok(true),
            _ => Err(ErrorCode::NotInProgress),
        }
    }

    /// Finishes a connect; `probe` is what the operating system reported,
    /// needed only while the connection is in progress.
    pub fn finish_connect(&mut self, probe: ConnectProbe) -> (r: Result<(), ErrorCode>)
        ensures
            final(self).listen_backlog_size == old(self).listen_backlog_size,
            old(self).tcp_state == TcpState::ConnectReady ==> r is Ok,
            old(self).tcp_state == TcpState::Connecting ==> match probe {
                ConnectProbe::Pending => r == Err::<(), ErrorCode>(ErrorCode::WouldBlock),
                ConnectProbe::Established => r is Ok,
                ConnectProbe::Failed(e) => r == Err::<(), ErrorCode>(e),
            },
            old(self).tcp_state != TcpState::Connecting && old(self).tcp_state != TcpState::ConnectReady
                ==> r == Err::<(), ErrorCode>(ErrorCode::NotInProgress),
            final(self).tcp_state == if r is Ok { TcpState::Connected } else { old(self).tcp_state },
    {
        match self.tcp_state {
            TcpState::ConnectReady => {},
            TcpState::Connecting => {
                match probe {
                    ConnectProbe::Pending => return Err(ErrorCode::WouldBlock),
                    ConnectProbe::Established => {},
                    ConnectProbe::Failed(e) => return Err(e),
                }
            },
            _ => return Err(ErrorCode::NotInProgress),
        }
        self.tcp_state = TcpState::Connected;
        Ok(())
    }

    /// Whether listening may start: only once bound.
    pub fn start_listen_check(&self) -> (r: Result<(), ErrorCode>)
        ensures
            r == listen_check(self.tcp_state),
            r is Ok <==> self.tcp_state == TcpState::Bound,
    {
        match self.tcp_state {
            TcpState::Bound => Ok(()),
            TcpState::ListenStarted => Err(ErrorCode::AlreadyListening),
            TcpState::Connected => Err(ErrorCode::AlreadyConnected),
            _ => Err(ErrorCode::NotInProgress),
        }
    }

    /// Records the outcome of the listen call.
    pub fn start_listen_complete(&mut self, os: Result<(), ErrorCode>) -> (r: Result<(), ErrorCode>)
        requires
            old(self).tcp_state == TcpState::Bound,
        ensures
            r == os,
            final(self).tcp_state == if os is Ok { TcpState::ListenStarted } else { TcpState::Bound },
            final(self).listen_backlog_size == old(self).listen_backlog_size,
    {
        match os {
            Ok(()) => {
                self.tcp_state = TcpState::ListenStarted;
                os
            },
            Err(_) => os,
        }
    }

    /// Finishes listening.
    pub fn finish_listen(&mut self) -> (r: Result<(), ErrorCode>)
        ensures
            r == not_in(old(self).tcp_state, TcpState::ListenStarted),
            final(self).tcp_state == if r is Ok { TcpState::Listening } else { old(self).tcp_state },
            final(self).listen_backlog_size == old(self).listen_backlog_size,
    {
        match self.tcp_state {
            TcpState::ListenStarted => {},
            _ => return Err(ErrorCode::NotInProgress),
        }
        self.tcp_state = TcpState::Listening;
        Ok(())
    }

    /// Whether a connection may be accepted: only while listening.
    pub fn accept_check(&self) -> (r: Result<(), ErrorCode>)
        ensures
            r == accept_check(self.tcp_state),
            r is Ok <==> self.tcp_state == TcpState::Listening,
    {
        match self.tcp_state {
            TcpState::Listening => Ok(()),
            TcpState::Connected => Err(ErrorCode::AlreadyConnected),
            _ => Err(ErrorCode::NotInProgress),
        }
    }

    /// What setting the backlog to `value` needs: `Ok(None)` to stash the
    /// clamped value for the first `listen`, `Ok(Some(v))` to ask the
    /// operating system to listen again with `v`, or the error.
    pub fn set_listen_backlog_size_check(&self, value: u64) -> (r: Result<Option<i32>, ErrorCode>)
        ensures
            match self.tcp_state {
                TcpState::Default | TcpState::BindStarted | TcpState::Bound => r == Ok::<
                    Option<i32>,
                    ErrorCode,
                >(None),
                TcpState::Listening => r == Ok::<Option<i32>, ErrorCode>(Some(clamped_backlog(value))),
                TcpState::Connected => r == Err::<Option<i32>, ErrorCode>(ErrorCode::AlreadyConnected),
                _ => r == Err::<Option<i32>, ErrorCode>(ErrorCode::ConcurrencyConflict),
            },
    {
        let v = clamp_backlog(value);
        match self.tcp_state {
            TcpState::Default | TcpState::BindStarted | TcpState::Bound => Ok(None),
            TcpState::Listening => Ok(Some(v)),
            TcpState::Connected => Err(ErrorCode::AlreadyConnected),
            TcpState::Connecting | TcpState::ConnectReady | TcpState::ListenStarted => Err(
                ErrorCode::ConcurrencyConflict,
            ),
        }
    }

    /// Sets the backlog to `value`. While listening, `relisten` is the
    /// outcome of listening again with the clamped value; a refusal is
    /// reported as `AlreadyListening`. In the states before listening the
    /// clamped value is stashed for the first `listen`.
    pub fn set_listen_backlog_size(&mut self, value: u64, relisten: Result<(), ErrorCode>) -> (r: Result<
        (),
        ErrorCode,
    >)
        ensures
            final(self).tcp_state == old(self).tcp_state,
            match old(self).tcp_state {
                TcpState::Default | TcpState::BindStarted | TcpState::Bound => r is Ok
                    && final(self).listen_backlog_size == Some(clamped_backlog(value)),
                TcpState::Listening => if relisten is Ok {
                    r is Ok && final(self).listen_backlog_size == Some(clamped_backlog(value))
                } else {
                    r == Err::<(), ErrorCode>(ErrorCode::AlreadyListening) && final(self).listen_backlog_size
                        == old(self).listen_backlog_size
                },
                TcpState::Connected => r == Err::<(), ErrorCode>(ErrorCode::AlreadyConnected)
                    && final(self).listen_backlog_size == old(self).listen_backlog_size,
                _ => r == Err::<(), ErrorCode>(ErrorCode::ConcurrencyConflict) && final(self).listen_backlog_size
                    == old(self).listen_backlog_size,
            },
    {
        let v = clamp_backlog(value);
        match self.tcp_state {
            TcpState::Default | TcpState::BindStarted | TcpState::Bound => {
                self.listen_backlog_size = Some(v);
                Ok(())
            },
            TcpState::Listening => {
                match relisten {
                    Ok(()) => {
                        self.listen_backlog_size = Some(v);
                        Ok(())
                    },
                    Err(_) => Err(ErrorCode::AlreadyListening),
                }
            },
            TcpState::Connected => Err(ErrorCode::AlreadyConnected),
            TcpState::Connecting | TcpState::ConnectReady | TcpState::ListenStarted => Err(
                ErrorCode::ConcurrencyConflict,
            ),
        }
    }

    /// Whether dropping the socket must shut it down to wake up a pending
    /// poll: for sockets that are listening, connecting or connected.
    pub fn needs_shutdown_on_drop(&self) -> (r: bool)
        ensures
            r == (self.tcp_state == TcpState::Listening || self.tcp_state == TcpState::Connecting
                || self.tcp_state == TcpState::Connected),
    {
        match self.tcp_state {
            TcpState::Listening | TcpState::Connecting | TcpState::Connected => true,
            _ => false,
        }
    }
}

/// The only way to listening leads through binding: from the initial state,
/// a socket that completes `start_bind`, `finish_bind`, `start_listen` and
/// `finish_listen` in turn is listening, and no earlier step may be left
/// out.
pub proof fn law_listen_path()
    ensures
        not_in(TcpState::Default, TcpState::Default) is Ok,
        not_in(TcpState::BindStarted, TcpState::BindStarted) is Ok,
        listen_check(TcpState::Bound) is Ok,
        not_in(TcpState::ListenStarted, TcpState::ListenStarted) is Ok,
        accept_check(TcpState::Listening) is Ok,
        listen_check(TcpState::Default) is Err,
        listen_check(TcpState::BindStarted) is Err,
        accept_check(TcpState::Bound) is Err,
        accept_check(TcpState::ListenStarted) is Err,
{
}

/// A connected socket refuses to bind, connect, listen or accept.
pub proof fn law_connected_is_final()
    ensures
        not_in(TcpState::Connected, TcpState::Default) is Err,
        connect_check(TcpState::Connected) == Err::<(), ErrorCode>(ErrorCode::AlreadyConnected),
        listen_check(TcpState::Connected) == Err::<(), ErrorCode>(ErrorCode::AlreadyConnected),
        accept_check(TcpState::Connected) == Err::<(), ErrorCode>(ErrorCode::AlreadyConnected),
{
}

/// Each operation starts from exactly one state: binding and connecting only
/// from the initial state, listening only once bound, accepting only while
/// listening. In particular a listening socket cannot connect, and a socket
/// that is connecting or connected cannot listen.
pub proof fn law_each_operation_has_one_start_state(s: TcpState)
    ensures
        not_in(s, TcpState::Default) is Ok <==> s == TcpState::Default,
        connect_check(s) is Ok <==> s == TcpState::Default,
        listen_check(s) is Ok <==> s == TcpState::Bound,
        accept_check(s) is Ok <==> s == TcpState::Listening,
        s == TcpState::Listening ==> connect_check(s) == Err::<(), ErrorCode>(ErrorCode::NotInProgress),
        s == TcpState::Connecting ==> listen_check(s) == Err::<(), ErrorCode>(ErrorCode::NotInProgress),
{
}

/// The clamped backlog is the requested one whenever that is in range.
pub proof fn law_backlog_in_range_kept(value: u64)
    requires
        MIN_BACKLOG <= value <= MAX_BACKLOG,
    ensures
        clamped_backlog(value) == value,
{
}

} // verus!
