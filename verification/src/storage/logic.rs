use crate::storage::nio::{NetAddress, NetCommand, NetEvent};
use vstd::prelude::*;

verus! {

/// A process's link to the network layer: the commands it has issued, in
/// order, waiting to be carried out by whoever runs the event loop.
pub struct Service {
    running: bool,
    pending: Vec<NetCommand>,
}

impl Service {
    /// Whether the service is attached to a running network layer; commands
    /// can only be issued then.
    pub closed spec fn is_running(&self) -> bool {
        self.running
    }

    /// The commands issued and not yet taken, oldest first.
    pub closed spec fn commands(&self) -> Seq<NetCommand> {
        self.pending@
    }

    /// A service not yet attached to a network layer, with nothing issued.
    pub fn new() -> (r: Service)
        ensures
            !r.is_running(),
            r.commands() == Seq::<NetCommand>::empty(),
    {
        Service { running: false, pending: Vec::new() }
    }

    /// Attaches the service to a running network layer.
    pub fn attach(&mut self)
        ensures
            final(self).is_running(),
            final(self).commands() == old(self).commands(),
    {
        self.running = true;
    }

    /// Whether the service is attached to a running network layer.
    pub fn running(&self) -> (r: bool)
        ensures
            r == self.is_running(),
    {
        self.running
    }

    fn issue(&mut self, command: NetCommand)
        requires
            old(self).is_running(),
        ensures
            final(self).is_running(),
            final(self).commands() == old(self).commands().push(command),
    {
        self.pending.push(command);
    }

    /// Asks the network layer to listen on `address`, reporting the
    /// connections it accepts under event id `id`.
    pub fn listen(&mut self, id: usize, address: NetAddress)
        requires
            old(self).is_running(),
        ensures
            final(self).is_running(),
            final(self).commands() == old(self).commands().push(NetCommand::LISTEN((id, address))),
    {
        self.issue(NetCommand::LISTEN((id, address)));
    }

    /// Asks the network layer to connect to `address`, reporting the
    /// connection under event id `id`.
    pub fn connect(&mut self, id: usize, address: NetAddress)
        requires
            old(self).is_running(),
        ensures
            final(self).is_running(),
            final(self).commands() == old(self).commands().push(NetCommand::CONNECT((id, address))),
    {
        self.issue(NetCommand::CONNECT((id, address)));
    }

    /// Asks the network layer to send `buf` on connection `id`.
    pub fn send(&mut self, id: usize, buf: Vec<u8>)
        requires
            old(self).is_running(),
        ensures
            final(self).is_running(),
            final(self).commands() == old(self).commands().push(NetCommand::SEND((id, buf))),
    {
        self.issue(NetCommand::SEND((id, buf)));
    }

    /// Asks the network layer to report `TIMEOUT(id)` after `sec` seconds.
    pub fn timeout(&mut self, id: usize, sec: usize)
        requires
            old(self).is_running(),
        ensures
            final(self).is_running(),
            final(self).commands() == old(self).commands().push(NetCommand::TIMEOUT((id, sec))),
    {
        self.issue(NetCommand::TIMEOUT((id, sec)));
    }

    /// Asks the network layer to withdraw the timeout with id `id`.
    pub fn cancel_timeout(&mut self, id: usize)
        requires
            old(self).is_running(),
        ensures
            final(self).is_running(),
            final(self).commands() == old(self).commands().push(NetCommand::CANCEL_TIMEOUT(id)),
    {
        self.issue(NetCommand::CANCEL_TIMEOUT(id));
    }

    /// Hands over the issued commands, oldest first, leaving none pending.
    pub fn take_commands(&mut self) -> (r: Vec<NetCommand>)
        ensures
            r@ == old(self).commands(),
            final(self).commands() == Seq::<NetCommand>::empty(),
            final(self).is_running() == old(self).is_running(),
    {
        let mut taken: Vec<NetCommand> = Vec::new();
        std::mem::swap(&mut taken, &mut self.pending);
        taken
    }
}

/// Whether `after` is `before` with commands appended: issued commands are
/// never withdrawn or reordered.
pub open spec fn only_appended(before: Seq<NetCommand>, after: Seq<NetCommand>) -> bool {
    before.len() <= after.len() && after.subrange(0, before.len() as int) == before
}

/// A process driven by the network layer: it is started once, then handed
/// each event in turn, and reacts by issuing commands on the service.
pub trait Process {
    fn process_init(&mut self, service: &mut Service)
        requires
            old(service).is_running(),
        ensures
            final(service).is_running(),
            only_appended(old(service).commands(), final(service).commands()),
    ;

    fn process_event(&mut self, service: &mut Service, ev: NetEvent)
        requires
            old(service).is_running(),
        ensures
            final(service).is_running(),
            only_appended(old(service).commands(), final(service).commands()),
    ;
}

} // verus!
