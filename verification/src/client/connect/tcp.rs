//! TCP connections: which addresses are tried, when, and with which sockets.

use vstd::prelude::*;

use super::config::supported;
use super::config::Config;
use super::config::Platform;
use super::config::TcpKeepalive;
use super::dns::preference;
use super::dns::SocketAddrs;
use crate::error::IoError;
use crate::error::IoErrorKind;
use crate::net::IpAddr;
use crate::net::Ipv4Addr;
use crate::net::Ipv6Addr;
use crate::net::SocketAddr;
use crate::time::Duration;

verus! {

/// What stands behind a failure: an error from outside, or one that is made here.
#[derive(Debug)]
pub enum Cause<E> {
    Outside(E),
    Io(IoError),
}

/// Why a connection could not be made. `E` is the type of errors from outside.
#[derive(Debug)]
pub struct ConnectError<E> {
    pub msg: &'static str,
    pub addr: Option<SocketAddr>,
    pub cause: Option<Cause<E>>,
}

impl<E> ConnectError<E> {
    /// A failure with a cause.
    pub fn new(msg: &'static str, cause: Cause<E>) -> (r: Self)
        ensures
            r.msg == msg,
            r.addr is None,
            r.cause == Some(cause),
    {
        ConnectError { msg, addr: None, cause: Some(cause) }
    }

    /// A failure with nothing behind it.
    pub fn plain(msg: &'static str) -> (r: Self)
        ensures
            r.msg == msg,
            r.addr is None,
            r.cause is None,
    {
        ConnectError { msg, addr: None, cause: None }
    }

    /// A failure to resolve a name.
    pub fn dns(cause: E) -> (r: Self)
        ensures
            r.msg@ == "dns error"@,
            r.addr is None,
            r.cause == Some(Cause::Outside(cause)),
    {
        ConnectError::new("dns error", Cause::Outside(cause))
    }

    /// What the error says.
    pub fn text(&self) -> (r: &'static str)
        ensures
            r == self.msg,
    {
        self.msg
    }
}

/// A step in setting up a socket that has been opened.
#[derive(Debug)]
pub enum SocketStep {
    SetNonblocking,
    SetKeepalive(TcpKeepalive),
    BindInterface(String),
    SetUserTimeout(Duration),
    BindLocal(SocketAddr),
    SetReuseAddress,
    SetSendBufferSize(usize),
    SetRecvBufferSize(usize),
    SetNodelay(bool),
}

/// What a step is, with its text by its characters.
#[verifier::ext_equal]
pub enum SocketStepView {
    SetNonblocking,
    SetKeepalive(TcpKeepalive),
    BindInterface(Seq<char>),
    SetUserTimeout(Duration),
    BindLocal(SocketAddr),
    SetReuseAddress,
    SetSendBufferSize(usize),
    SetRecvBufferSize(usize),
    SetNodelay(bool),
}

impl View for SocketStep {
    type V = SocketStepView;

    open spec fn view(&self) -> SocketStepView {
        match *self {
            SocketStep::SetNonblocking => SocketStepView::SetNonblocking,
            SocketStep::SetKeepalive(ka) => SocketStepView::SetKeepalive(ka),
            SocketStep::BindInterface(name) => SocketStepView::BindInterface(name@),
            SocketStep::SetUserTimeout(d) => SocketStepView::SetUserTimeout(d),
            SocketStep::BindLocal(addr) => SocketStepView::BindLocal(addr),
            SocketStep::SetReuseAddress => SocketStepView::SetReuseAddress,
            SocketStep::SetSendBufferSize(n) => SocketStepView::SetSendBufferSize(n),
            SocketStep::SetRecvBufferSize(n) => SocketStepView::SetRecvBufferSize(n),
            SocketStep::SetNodelay(on) => SocketStepView::SetNodelay(on),
        }
    }
}

/// The views of a list of steps.
pub open spec fn step_views(v: Seq<SocketStep>) -> Seq<SocketStepView> {
    Seq::new(v.len(), |i: int| v[i]@)
}

/// A step in a list, or none.
pub open spec fn step_if(step: Option<SocketStepView>) -> Seq<SocketStepView> {
    match step {
        Some(s) => seq![s],
        None => Seq::empty(),
    }
}

/// The unspecified IPv4 address.
pub open spec fn is_any_v4(ip: Ipv4Addr) -> bool {
    forall|i: int| 0 <= i < 4 ==> ip@[i] == 0
}

/// The unspecified IPv6 address.
pub open spec fn is_any_v6(ip: Ipv6Addr) -> bool {
    forall|i: int| 0 <= i < 16 ==> ip@[i] == 0
}

/// Whether a socket for `dst` is bound to `bound`: to the local address of the destination's
/// family, if there is one, and otherwise only where the system requires it, to any address.
pub open spec fn binds(
    dst: SocketAddr,
    local_ipv4: Option<Ipv4Addr>,
    local_ipv6: Option<Ipv6Addr>,
    bind_required: bool,
    bound: Option<SocketAddr>,
) -> bool {
    match dst {
        SocketAddr::V4(_) => match local_ipv4 {
            Some(ip) => bound == Some(SocketAddr::new_spec(IpAddr::V4(ip), 0)),
            None => if bind_required {
                bound matches Some(SocketAddr::V4(a)) && is_any_v4(a.ip) && a.port == 0
            } else {
                bound is None
            },
        },
        SocketAddr::V6(_) => match local_ipv6 {
            Some(ip) => bound == Some(SocketAddr::new_spec(IpAddr::V6(ip), 0)),
            None => if bind_required {
                bound matches Some(SocketAddr::V6(a)) && is_any_v6(a.ip) && a.port == 0 && a.flowinfo
                    == 0 && a.scope_id == 0
            } else {
                bound is None
            },
        },
    }
}

/// The address to bind a socket to before it is connected to `dst_addr`, if any.
pub fn bind_local_address(
    dst_addr: &SocketAddr,
    local_addr_ipv4: &Option<Ipv4Addr>,
    local_addr_ipv6: &Option<Ipv6Addr>,
    bind_required: bool,
) -> (r: Option<SocketAddr>)
    ensures
        binds(*dst_addr, *local_addr_ipv4, *local_addr_ipv6, bind_required, r),
{
    match (dst_addr, local_addr_ipv4, local_addr_ipv6) {
        (SocketAddr::V4(_), Some(addr), _) => Some(SocketAddr::new(IpAddr::V4(*addr), 0)),
        (SocketAddr::V6(_), _, Some(addr)) => Some(SocketAddr::new(IpAddr::V6(*addr), 0)),
        _ => {
            if bind_required {
                let any = match dst_addr {
                    SocketAddr::V4(_) => IpAddr::V4(Ipv4Addr { octets: [0;4] }),
                    SocketAddr::V6(_) => IpAddr::V6(Ipv6Addr { octets: [0;16] }),
                };
                Some(SocketAddr::new(any, 0))
            } else {
                None
            }
        },
    }
}

/// The steps that set up a socket for an address, in order, given the address that it is bound to.
pub open spec fn socket_steps(
    config: Config,
    platform: Platform,
    bound: Option<SocketAddr>,
) -> Seq<SocketStepView> {
    seq![SocketStepView::SetNonblocking] + step_if(
        match config.tcp_keepalive_config.keepalive(platform) {
            Some(ka) => Some(SocketStepView::SetKeepalive(ka)),
            None => None,
        },
    ) + step_if(
        match supported(platform.interface, config.interface) {
            Some(name) => Some(SocketStepView::BindInterface(name@)),
            None => None,
        },
    ) + step_if(
        match supported(platform.user_timeout, config.tcp_user_timeout) {
            Some(d) => Some(SocketStepView::SetUserTimeout(d)),
            None => None,
        },
    ) + step_if(
        match bound {
            Some(addr) => Some(SocketStepView::BindLocal(addr)),
            None => None,
        },
    ) + step_if(
        if config.reuse_address {
            Some(SocketStepView::SetReuseAddress)
        } else {
            None
        },
    ) + step_if(
        match config.send_buffer_size {
            Some(n) => Some(SocketStepView::SetSendBufferSize(n)),
            None => None,
        },
    ) + step_if(
        match config.recv_buffer_size {
            Some(n) => Some(SocketStepView::SetRecvBufferSize(n)),
            None => None,
        },
    ) + seq![SocketStepView::SetNodelay(config.nodelay)]
}

fn push_step(steps: &mut Vec<SocketStep>, step: SocketStep)
    ensures
        step_views(final(steps)@) == step_views(old(steps)@) + seq![step@],
{
    let ghost before = steps@;
    steps.push(step);
    assert(step_views(steps@) =~= step_views(before) + seq![step@]);
}

/// Plans how a socket for an address is set up before it is connected.
pub fn connect(addr: &SocketAddr, config: &Config, platform: Platform) -> (r: Vec<SocketStep>)
    ensures
        exists|bound: Option<SocketAddr>| #[trigger]
            binds(
                *addr,
                config.local_address_ipv4,
                config.local_address_ipv6,
                platform.bind_required,
                bound,
            ) && step_views(r@) == socket_steps(*config, platform, bound),
{
    let mut steps: Vec<SocketStep> = Vec::new();
    assert(step_views(steps@) =~= Seq::<SocketStepView>::empty());
    push_step(&mut steps, SocketStep::SetNonblocking);
    assert(step_views(steps@) =~= seq![SocketStepView::SetNonblocking]);
    if let Some(ka) = config.tcp_keepalive(platform) {
        push_step(&mut steps, SocketStep::SetKeepalive(ka));
    }
    if platform.interface {
        if let Some(name) = &config.interface {
            push_step(&mut steps, SocketStep::BindInterface(name.clone()));
        }
    }
    if platform.user_timeout {
        if let Some(d) = config.tcp_user_timeout {
            push_step(&mut steps, SocketStep::SetUserTimeout(d));
        }
    }
    let bound = bind_local_address(
        addr,
        &config.local_address_ipv4,
        &config.local_address_ipv6,
        platform.bind_required,
    );
    if let Some(bound) = bound {
        push_step(&mut steps, SocketStep::BindLocal(bound));
    }
    if config.reuse_address {
        push_step(&mut steps, SocketStep::SetReuseAddress);
    }
    if let Some(size) = config.send_buffer_size {
        push_step(&mut steps, SocketStep::SetSendBufferSize(size));
    }
    if let Some(size) = config.recv_buffer_size {
        push_step(&mut steps, SocketStep::SetRecvBufferSize(size));
    }
    push_step(&mut steps, SocketStep::SetNodelay(config.nodelay));
    assert(step_views(steps@) =~= socket_steps(*config, platform, bound));
    steps
}

/// The message of a step that must succeed. A step without one may fail.
pub open spec fn fatal_message(step: SocketStepView) -> Option<Seq<char>> {
    match step {
        SocketStepView::SetNonblocking => Some("tcp set_nonblocking error"@),
        SocketStepView::BindInterface(_) => Some("tcp bind interface error"@),
        SocketStepView::BindLocal(_) => Some("tcp bind local error"@),
        _ => None,
    }
}

/// What the failure of a step means: for some steps that no connection can be made, for the others
/// nothing.
pub fn step_failed<E>(step: &SocketStep, cause: E) -> (r: Result<(), ConnectError<E>>)
    ensures
        match fatal_message(step@) {
            Some(msg) => r matches Err(e) && e.msg@ == msg && e.addr is None && e.cause == Some(
                Cause::Outside(cause),
            ),
            None => r is Ok,
        },
{
    match step {
        SocketStep::SetNonblocking => Err(
            ConnectError::new("tcp set_nonblocking error", Cause::Outside(cause)),
        ),
        SocketStep::BindInterface(_) => Err(
            ConnectError::new("tcp bind interface error", Cause::Outside(cause)),
        ),
        SocketStep::BindLocal(_) => Err(
            ConnectError::new("tcp bind local error", Cause::Outside(cause)),
        ),
        _ => Ok(()),
    }
}

/// What it means that no socket could be opened.
pub fn open_failed<E>(cause: E) -> (r: ConnectError<E>)
    ensures
        r.msg@ == "tcp open error"@,
        r.addr is None,
        r.cause == Some(Cause::Outside(cause)),
{
    ConnectError::new("tcp open error", Cause::Outside(cause))
}

/// What it means that the index of an interface could not be found by its name.
pub fn interface_index_failed<E>(cause: E) -> (r: ConnectError<E>)
    ensures
        r.msg@ == "error converting interface name to index"@,
        r.addr is None,
        r.cause == Some(Cause::Outside(cause)),
{
    ConnectError::new("error converting interface name to index", Cause::Outside(cause))
}

/// How the connecting of a socket ended.
#[derive(Debug)]
pub enum Connecting<T, E> {
    Connected(T),
    Failed(E),
    /// The time for one address passed first.
    Elapsed,
}

/// Whether an error is that of an attempt that took too long.
pub open spec fn is_timeout<E>(e: ConnectError<E>) -> bool {
    &&& e.msg@ == "tcp connect error"@
    &&& e.addr is None
    &&& e.cause matches Some(Cause::Io(io))
    &&& io.kind == IoErrorKind::TimedOut
    &&& io.message@ == "connect timeout"@
}

/// What the connecting of a socket gives.
pub fn connect_outcome<T, E>(ended: Connecting<T, E>) -> (r: Result<T, ConnectError<E>>)
    ensures
        match ended {
            Connecting::Connected(t) => r == Ok::<T, ConnectError<E>>(t),
            Connecting::Failed(cause) => r matches Err(e) && e.msg@ == "tcp connect error"@
                && e.addr is None && e.cause == Some(Cause::Outside(cause)),
            Connecting::Elapsed => r matches Err(e) && is_timeout(e),
        },
{
    match ended {
        Connecting::Connected(t) => Ok(t),
        Connecting::Failed(cause) => Err(
            ConnectError::new("tcp connect error", Cause::Outside(cause)),
        ),
        Connecting::Elapsed => Err(
            ConnectError::new(
                "tcp connect error",
                Cause::Io(IoError::new(IoErrorKind::TimedOut, "connect timeout")),
            ),
        ),
    }
}

/// Attempts to connect to some addresses, one after the other.
#[derive(Debug)]
pub struct ConnectingTcpRemote<E> {
    pub addrs: SocketAddrs,
    /// The time for each address.
    pub connect_timeout: Option<Duration>,
    /// The first error.
    pub err: Option<ConnectError<E>>,
}

/// What is to be done next to reach one of some addresses.
#[derive(Debug)]
pub enum RemoteStep<E> {
    /// Connect to the address, and report a failure with `failed`.
    Attempt(SocketAddr),
    /// None of the addresses can be reached.
    GiveUp(ConnectError<E>),
}

/// The time for each of `n` addresses: an even part of the whole.
pub open spec fn time_each(timeout: Option<Duration>, n: nat, each: Option<Duration>) -> bool {
    match timeout {
        Some(t) if n % 0x1_0000_0000 != 0 => each matches Some(e) && e@ == t@ / (n
            % 0x1_0000_0000),
        _ => each is None,
    }
}

/// Whether an error says that there was no address to try.
pub open spec fn is_unreachable<E>(e: ConnectError<E>) -> bool {
    &&& e.msg@ == "tcp connect error"@
    &&& e.addr is None
    &&& e.cause matches Some(Cause::Io(io))
    &&& io.kind == IoErrorKind::NotConnected
    &&& io.message@ == "Network unreachable"@
}

impl<E> ConnectingTcpRemote<E> {
    /// Attempts to connect to the addresses, with a time for all of them.
    pub fn new(addrs: SocketAddrs, connect_timeout: Option<Duration>) -> (r: Self)
        ensures
            r.addrs == addrs,
            r.err is None,
            time_each(connect_timeout, addrs@.len(), r.connect_timeout),
    {
        let n: u64 = addrs.len() as u64;
        let parts: u32 = (n % 0x1_0000_0000) as u32;
        let connect_timeout = match connect_timeout {
            Some(t) => t.checked_div(parts),
            None => None,
        };
        ConnectingTcpRemote { addrs, connect_timeout, err: None }
    }

    /// The next attempt, or the first error once there is no address left.
    pub fn connect(&mut self) -> (r: RemoteStep<E>)
        ensures
            final(self).connect_timeout == old(self).connect_timeout,
            match r {
                RemoteStep::Attempt(addr) => {
                    &&& old(self).addrs@.len() > 0
                    &&& addr == old(self).addrs@[0]
                    &&& final(self).addrs@ == old(self).addrs@.skip(1)
                    &&& final(self).err == old(self).err
                },
                RemoteStep::GiveUp(e) => {
                    &&& old(self).addrs@.len() == 0
                    &&& final(self).addrs@ == old(self).addrs@
                    &&& final(self).err is None
                    &&& old(self).err is Some ==> Some(e) == old(self).err
                    &&& old(self).err is None ==> is_unreachable(e)
                },
            },
    {
        match self.addrs.next() {
            Some(addr) => RemoteStep::Attempt(addr),
            None => match self.err.take() {
                Some(e) => RemoteStep::GiveUp(e),
                None => RemoteStep::GiveUp(
                    ConnectError::new(
                        "tcp connect error",
                        Cause::Io(IoError::new(IoErrorKind::NotConnected, "Network unreachable")),
                    ),
                ),
            },
        }
    }

    /// Takes note of a failed attempt. Only the first failure is kept, with its address.
    pub fn failed(&mut self, addr: SocketAddr, e: ConnectError<E>)
        ensures
            final(self).addrs == old(self).addrs,
            final(self).connect_timeout == old(self).connect_timeout,
            final(self).err == (if old(self).err is Some {
                old(self).err
            } else {
                Some(ConnectError { msg: e.msg, addr: Some(addr), cause: e.cause })
            }),
    {
        if self.err.is_none() {
            self.err = Some(ConnectError { msg: e.msg, addr: Some(addr), cause: e.cause });
        }
    }
}

/// Attempts on the preferred addresses, and later ones on the others.
#[derive(Debug)]
pub struct ConnectingTcp<E> {
    pub preferred: ConnectingTcpRemote<E>,
    pub fallback: Option<ConnectingTcpFallback<E>>,
}

/// Attempts that begin after a delay.
#[derive(Debug)]
pub struct ConnectingTcpFallback<E> {
    pub delay: Duration,
    pub remote: ConnectingTcpRemote<E>,
}

impl<E> ConnectingTcp<E> {
    /// Plans the attempts for some addresses. With a delay for it, the other family than the
    /// preferred one is a fallback; each family has the whole time for itself.
    pub fn new(remote_addrs: SocketAddrs, config: &Config) -> (r: Self)
        ensures
            r.preferred.err is None,
            match config.happy_eyeballs_timeout {
                Some(delay) => {
                    let (preferred, fallback) = preference(
                        remote_addrs@,
                        config.local_address_ipv4,
                        config.local_address_ipv6,
                    );
                    &&& r.preferred.addrs@ == preferred
                    &&& time_each(
                        config.connect_timeout,
                        preferred.len(),
                        r.preferred.connect_timeout,
                    )
                    &&& match r.fallback {
                        Some(f) => {
                            &&& fallback.len() > 0
                            &&& f.delay == delay
                            &&& f.remote.addrs@ == fallback
                            &&& f.remote.err is None
                            &&& time_each(
                                config.connect_timeout,
                                fallback.len(),
                                f.remote.connect_timeout,
                            )
                        },
                        None => fallback.len() == 0,
                    }
                },
                None => {
                    &&& r.preferred.addrs@ == remote_addrs@
                    &&& time_each(
                        config.connect_timeout,
                        remote_addrs@.len(),
                        r.preferred.connect_timeout,
                    )
                    &&& r.fallback is None
                },
            },
    {
        if let Some(delay) = config.happy_eyeballs_timeout {
            let (preferred_addrs, fallback_addrs) = remote_addrs.split_by_preference(
                config.local_address_ipv4,
                config.local_address_ipv6,
            );
            if fallback_addrs.is_empty() {
                return ConnectingTcp {
                    preferred: ConnectingTcpRemote::new(preferred_addrs, config.connect_timeout),
                    fallback: None,
                };
            }
            ConnectingTcp {
                preferred: ConnectingTcpRemote::new(preferred_addrs, config.connect_timeout),
                fallback: Some(
                    ConnectingTcpFallback {
                        delay,
                        remote: ConnectingTcpRemote::new(fallback_addrs, config.connect_timeout),
                    },
                ),
            }
        } else {
            ConnectingTcp {
                preferred: ConnectingTcpRemote::new(remote_addrs, config.connect_timeout),
                fallback: None,
            }
        }
    }

    /// Where the race of the two families begins.
    pub fn race(&self) -> (r: Race)
        ensures
            r == (if self.fallback is Some {
                Race::Delaying
            } else {
                Race::Alone
            }),
    {
        if self.fallback.is_some() {
            Race::Delaying
        } else {
            Race::Alone
        }
    }
}

/// How far the race between the preferred addresses and the fallback has come. Where two are
/// waited for, the one that is named first is looked at first.
#[derive(Debug, Clone, Copy, PartialEq, Eq, Structural)]
pub enum Race {
    /// There is no fallback: the preferred attempts are waited for.
    Alone,
    /// The preferred attempts and the delay are waited for.
    Delaying,
    /// The preferred attempts and the fallback are waited for.
    Racing,
    /// The fallback failed: the preferred attempts are waited for.
    OnlyPreferred,
    /// The preferred attempts failed: the fallback is waited for.
    OnlyFallback,
}

/// What ended while a race goes on.
#[derive(Debug)]
pub enum RaceEvent<T, E> {
    Preferred(Result<T, ConnectError<E>>),
    Fallback(Result<T, ConnectError<E>>),
    Delay,
}

/// How a race goes on.
#[derive(Debug)]
pub enum RaceStep<T, E> {
    Continue(Race),
    Finished(Result<T, ConnectError<E>>),
}

impl Race {
    /// Whether the event can happen now.
    pub open spec fn awaits<T, E>(self, event: RaceEvent<T, E>) -> bool {
        match event {
            RaceEvent::Preferred(_) => self != Race::OnlyFallback,
            RaceEvent::Fallback(_) => self == Race::Racing || self == Race::OnlyFallback,
            RaceEvent::Delay => self == Race::Delaying,
        }
    }

    /// How a race goes on after an event. A connection ends the race; so does a failure once nothing
    /// else is left to wait for. A failure before that leaves the other family alone, without
    /// waiting for the rest of the delay.
    pub open spec fn after<T, E>(self, event: RaceEvent<T, E>) -> RaceStep<T, E> {
        match event {
            RaceEvent::Delay => RaceStep::Continue(Race::Racing),
            RaceEvent::Preferred(Ok(t)) => RaceStep::Finished(Ok(t)),
            RaceEvent::Fallback(Ok(t)) => RaceStep::Finished(Ok(t)),
            RaceEvent::Preferred(Err(e)) => if self == Race::Delaying || self == Race::Racing {
                RaceStep::Continue(Race::OnlyFallback)
            } else {
                RaceStep::Finished(Err(e))
            },
            RaceEvent::Fallback(Err(e)) => if self == Race::Racing {
                RaceStep::Continue(Race::OnlyPreferred)
            } else {
                RaceStep::Finished(Err(e))
            },
        }
    }

    /// How a race has come on after some events, none of which came when it could not.
    pub open spec fn run<T, E>(self, events: Seq<RaceEvent<T, E>>) -> Option<RaceStep<T, E>>
        decreases events.len(),
    {
        if events.len() == 0 {
            Some(RaceStep::Continue(self))
        } else {
            match self.run(events.drop_last()) {
                Some(RaceStep::Continue(race)) => if race.awaits(events.last()) {
                    Some(race.after(events.last()))
                } else {
                    None
                },
                _ => None,
            }
        }
    }

    /// Goes on after an event.
    pub fn advance<T, E>(self, event: RaceEvent<T, E>) -> (r: RaceStep<T, E>)
        requires
            self.awaits(event),
        ensures
            r == self.after(event),
    {
        match event {
            RaceEvent::Delay => RaceStep::Continue(Race::Racing),
            RaceEvent::Preferred(Ok(t)) => RaceStep::Finished(Ok(t)),
            RaceEvent::Fallback(Ok(t)) => RaceStep::Finished(Ok(t)),
            RaceEvent::Preferred(Err(e)) => match self {
                Race::Delaying | Race::Racing => RaceStep::Continue(Race::OnlyFallback),
                _ => RaceStep::Finished(Err(e)),
            },
            RaceEvent::Fallback(Err(e)) => match self {
                Race::Racing => RaceStep::Continue(Race::OnlyPreferred),
                _ => RaceStep::Finished(Err(e)),
            },
        }
    }
}

/// Whether the preferred attempts have failed.
pub open spec fn preferred_failed<T, E>(events: Seq<RaceEvent<T, E>>) -> bool {
    exists|i: int|
        0 <= i < events.len() && #[trigger] events[i] is Preferred && events[i]->Preferred_0 is Err
}

/// Whether the fallback has failed.
pub open spec fn fallback_failed<T, E>(events: Seq<RaceEvent<T, E>>) -> bool {
    exists|i: int|
        0 <= i < events.len() && #[trigger] events[i] is Fallback && events[i]->Fallback_0 is Err
}

/// A race of both families fails only when both have failed, and with the failure that came last.
/// It gives a connection only if one was made, and the one that was made first.
pub proof fn lemma_race_of_both<T, E>(events: Seq<RaceEvent<T, E>>)
    requires
        Race::Delaying.run(events) is Some,
    ensures
        match Race::Delaying.run(events)->0 {
            RaceStep::Finished(Err(e)) => {
                &&& preferred_failed(events)
                &&& fallback_failed(events)
                &&& events.last() == RaceEvent::<T, E>::Preferred(Err(e)) || events.last()
                    == RaceEvent::<T, E>::Fallback(Err(e))
            },
            RaceStep::Finished(Ok(t)) => events.last() == RaceEvent::<T, E>::Preferred(Ok(t))
                || events.last() == RaceEvent::<T, E>::Fallback(Ok(t)),
            RaceStep::Continue(race) => {
                &&& race != Race::Alone
                &&& race == Race::OnlyFallback ==> preferred_failed(events)
                &&& race == Race::OnlyPreferred ==> fallback_failed(events)
                &&& forall|i: int|
                    0 <= i < events.len() ==> !(#[trigger] events[i] is Preferred
                        && events[i]->Preferred_0 is Ok) && !(events[i] is Fallback
                        && events[i]->Fallback_0 is Ok)
            },
        },
    decreases events.len(),
{
    if events.len() > 0 {
        let before = events.drop_last();
        lemma_race_of_both(before);
        assert forall|i: int| 0 <= i < before.len() implies before[i] == events[i] by {}
        if preferred_failed(before) {
            let i = choose|i: int|
                0 <= i < before.len() && #[trigger] before[i] is Preferred
                    && before[i]->Preferred_0 is Err;
            assert(events[i] is Preferred);
        }
        if fallback_failed(before) {
            let i = choose|i: int|
                0 <= i < before.len() && #[trigger] before[i] is Fallback
                    && before[i]->Fallback_0 is Err;
            assert(events[i] is Fallback);
        }
        let last = events[events.len() - 1];
        assert(last == events.last());
        assert forall|i: int| 0 <= i < events.len() - 1 implies #[trigger] events[i] == before[i] by {}
    }
}

/// An even division of a time: all parts together take no longer than the whole.
pub proof fn lemma_time_shared(timeout: Duration, n: nat, each: Duration)
    requires
        0 < n < 0x1_0000_0000,
        time_each(Some(timeout), n, Some(each)),
    ensures
        n * each@ <= timeout@,
        timeout@ < n * (each@ + 1),
{
    assert(n % 0x1_0000_0000 == n);
    vstd::arithmetic::div_mod::lemma_fundamental_div_mod(timeout@ as int, n as int);
    vstd::arithmetic::div_mod::lemma_mod_bound(timeout@ as int, n as int);
    assert(n * (each@ + 1) == n * each@ + n) by (nonlinear_arith);
}

/// Which steps set up a socket: what is configured and supported is set, what is not is left alone.
/// The socket never blocks, from the first step on.
pub proof fn lemma_socket_steps(
    config: Config,
    platform: Platform,
    bound: Option<SocketAddr>,
    step: SocketStepView,
)
    ensures
        socket_steps(config, platform, bound).len() >= 2,
        socket_steps(config, platform, bound)[0] == SocketStepView::SetNonblocking,
        socket_steps(config, platform, bound).last() == SocketStepView::SetNodelay(config.nodelay),
        socket_steps(config, platform, bound).contains(step) <==> match step {
            SocketStepView::SetNonblocking => true,
            SocketStepView::SetNodelay(on) => on == config.nodelay,
            SocketStepView::SetReuseAddress => config.reuse_address,
            SocketStepView::SetSendBufferSize(n) => config.send_buffer_size == Some(n),
            SocketStepView::SetRecvBufferSize(n) => config.recv_buffer_size == Some(n),
            SocketStepView::BindLocal(addr) => bound == Some(addr),
            SocketStepView::BindInterface(name) => platform.interface && config.interface is Some
                && config.interface->0@ == name,
            SocketStepView::SetUserTimeout(d) => platform.user_timeout && config.tcp_user_timeout
                == Some(d),
            SocketStepView::SetKeepalive(ka) => config.tcp_keepalive_config.keepalive(platform)
                == Some(ka),
        },
{
    let s1 = seq![SocketStepView::SetNonblocking];
    let s2 = step_if(
        match config.tcp_keepalive_config.keepalive(platform) {
            Some(ka) => Some(SocketStepView::SetKeepalive(ka)),
            None => None,
        },
    );
    let s3 = step_if(
        match supported(platform.interface, config.interface) {
            Some(name) => Some(SocketStepView::BindInterface(name@)),
            None => None,
        },
    );
    let s4 = step_if(
        match supported(platform.user_timeout, config.tcp_user_timeout) {
            Some(d) => Some(SocketStepView::SetUserTimeout(d)),
            None => None,
        },
    );
    let s5 = step_if(
        match bound {
            Some(addr) => Some(SocketStepView::BindLocal(addr)),
            None => None,
        },
    );
    let s6 = step_if(
        if config.reuse_address {
            Some(SocketStepView::SetReuseAddress)
        } else {
            None
        },
    );
    let s7 = step_if(
        match config.send_buffer_size {
            Some(n) => Some(SocketStepView::SetSendBufferSize(n)),
            None => None,
        },
    );
    let s8 = step_if(
        match config.recv_buffer_size {
            Some(n) => Some(SocketStepView::SetRecvBufferSize(n)),
            None => None,
        },
    );
    let s9 = seq![SocketStepView::SetNodelay(config.nodelay)];
    lemma_either_has(s1, s2, step);
    lemma_either_has(s1 + s2, s3, step);
    lemma_either_has(s1 + s2 + s3, s4, step);
    lemma_either_has(s1 + s2 + s3 + s4, s5, step);
    lemma_either_has(s1 + s2 + s3 + s4 + s5, s6, step);
    lemma_either_has(s1 + s2 + s3 + s4 + s5 + s6, s7, step);
    lemma_either_has(s1 + s2 + s3 + s4 + s5 + s6 + s7, s8, step);
    lemma_either_has(s1 + s2 + s3 + s4 + s5 + s6 + s7 + s8, s9, step);
    assert(s1[0] == SocketStepView::SetNonblocking);
    assert(s9[0] == SocketStepView::SetNodelay(config.nodelay));
    assert(s1.contains(step) <==> step == s1[0]);
    assert(s9.contains(step) <==> step == s9[0]);
    lemma_one_step(
        match config.tcp_keepalive_config.keepalive(platform) {
            Some(ka) => Some(SocketStepView::SetKeepalive(ka)),
            None => None,
        },
        step,
    );
    lemma_one_step(
        match supported(platform.interface, config.interface) {
            Some(name) => Some(SocketStepView::BindInterface(name@)),
            None => None,
        },
        step,
    );
    lemma_one_step(
        match supported(platform.user_timeout, config.tcp_user_timeout) {
            Some(d) => Some(SocketStepView::SetUserTimeout(d)),
            None => None,
        },
        step,
    );
    lemma_one_step(
        match bound {
            Some(addr) => Some(SocketStepView::BindLocal(addr)),
            None => None,
        },
        step,
    );
    lemma_one_step(
        if config.reuse_address {
            Some(SocketStepView::SetReuseAddress)
        } else {
            None
        },
        step,
    );
    lemma_one_step(
        match config.send_buffer_size {
            Some(n) => Some(SocketStepView::SetSendBufferSize(n)),
            None => None,
        },
        step,
    );
    lemma_one_step(
        match config.recv_buffer_size {
            Some(n) => Some(SocketStepView::SetRecvBufferSize(n)),
            None => None,
        },
        step,
    );
}

/// A step is in two lists together where it is in one of them.
proof fn lemma_either_has(a: Seq<SocketStepView>, b: Seq<SocketStepView>, step: SocketStepView)
    ensures
        (a + b).contains(step) <==> a.contains(step) || b.contains(step),
{
    if a.contains(step) {
        let i = choose|i: int| 0 <= i < a.len() && a[i] == step;
        assert((a + b)[i] == step);
    }
    if b.contains(step) {
        let i = choose|i: int| 0 <= i < b.len() && b[i] == step;
        assert((a + b)[a.len() + i] == step);
    }
}

/// A list of one step, or none, has that step alone.
proof fn lemma_one_step(one: Option<SocketStepView>, step: SocketStepView)
    ensures
        step_if(one).contains(step) <==> one == Some(step),
{
    if one is Some {
        assert(step_if(one)[0] == one->0);
    }
}

/// A step may fail without harm, unless the connection would block or leave by another way than the
/// one that is configured.
pub proof fn lemma_fatal_steps(step: SocketStepView)
    ensures
        fatal_message(step) is Some <==> step is SetNonblocking || step is BindInterface || step
            is BindLocal,
{
}

/// A socket is bound to the local address of its own family where there is one, and to no other
/// address. The system picks the port.
pub proof fn lemma_binds(
    dst: SocketAddr,
    local_ipv4: Option<Ipv4Addr>,
    local_ipv6: Option<Ipv6Addr>,
    bind_required: bool,
    bound: Option<SocketAddr>,
)
    requires
        binds(dst, local_ipv4, local_ipv6, bind_required, bound),
    ensures
        bound matches Some(b) ==> (b is V4 <==> dst is V4) && b.port_spec() == 0,
        dst is V4 && local_ipv4 is Some ==> bound is Some && bound->0.ip_spec() == IpAddr::V4(
            local_ipv4->0,
        ),
        dst is V6 && local_ipv6 is Some ==> bound is Some && bound->0.ip_spec() == IpAddr::V6(
            local_ipv6->0,
        ),
        dst is V4 && local_ipv4 is None ==> (bound is Some <==> bind_required),
        dst is V6 && local_ipv6 is None ==> (bound is Some <==> bind_required),
        dst is V4 && local_ipv4 is None && bind_required ==> bound->0.ip_spec()@ == seq![
            0u8,
            0u8,
            0u8,
            0u8,
        ],
        dst is V6 && local_ipv6 is None && bind_required ==> bound->0.ip_spec()@ == Seq::new(
            16,
            |i: int| 0u8,
        ),
{
    if bound is Some && bind_required {
        let octets = bound->0.ip_spec()@;
        if dst is V4 && local_ipv4 is None {
            assert(octets =~= seq![0u8, 0u8, 0u8, 0u8]);
        }
        if dst is V6 && local_ipv6 is None {
            assert(octets =~= Seq::new(16, |i: int| 0u8));
        }
    }
}

/// An attempt that takes too long fails as one, and where no address is left to try the network is
/// not reachable.
pub proof fn lemma_failure_kinds<E>(e: ConnectError<E>)
    ensures
        is_timeout(e) ==> e.cause is Some && e.cause->0 is Io && e.cause->0->Io_0.kind
            == IoErrorKind::TimedOut,
        is_unreachable(e) ==> e.cause is Some && e.cause->0 is Io && e.cause->0->Io_0.kind
            == IoErrorKind::NotConnected,
        !(is_timeout(e) && is_unreachable(e)),
{
}

/// Without a time to connect in, and without addresses, no address has one.
pub proof fn lemma_no_time(n: nat, each: Option<Duration>, timeout: Duration)
    ensures
        time_each(None, n, each) <==> each is None,
        time_each(Some(timeout), 0, each) <==> each is None,
        0 < n < 0x1_0000_0000 && time_each(Some(timeout), n, each) ==> each is Some,
{
}

/// The fallback begins when the delay is over, or at once when the preferred attempts have failed,
/// and not before. The first connection is taken.
pub proof fn lemma_race_steps<T, E>(race: Race, t: T, e: ConnectError<E>)
    ensures
        race.after(RaceEvent::<T, E>::Preferred(Ok(t))) == RaceStep::<T, E>::Finished(Ok(t)),
        race.after(RaceEvent::<T, E>::Fallback(Ok(t))) == RaceStep::<T, E>::Finished(Ok(t)),
        !Race::Delaying.awaits(RaceEvent::<T, E>::Fallback(Ok(t))),
        Race::Delaying.after(RaceEvent::<T, E>::Delay) == RaceStep::<T, E>::Continue(Race::Racing),
        Race::Racing.awaits(RaceEvent::<T, E>::Fallback(Ok(t))),
        Race::Racing.awaits(RaceEvent::<T, E>::Preferred(Ok(t))),
        Race::Delaying.after(RaceEvent::<T, E>::Preferred(Err(e))) == RaceStep::<T, E>::Continue(
            Race::OnlyFallback,
        ),
        Race::OnlyFallback.awaits(RaceEvent::<T, E>::Fallback(Ok(t))),
        Race::Alone.after(RaceEvent::<T, E>::Preferred(Err(e))) == RaceStep::<T, E>::Finished(
            Err(e),
        ),
{
}

} // verus!
