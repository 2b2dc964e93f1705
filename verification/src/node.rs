use vstd::prelude::*;
use crate::codec::{decode_message, encode_message, parse_msg, spec_encode};
use crate::json::{bytes_eq, bytes_view, clone_bytes, clone_bytes_list, dec_digits, push_u64};
use crate::wire::{command_of, Body, BodyV, Message, MessageV, Payload, PayloadV};

verus! {

// ---------------------------------------------------------------------------
// Node state: the node's identity and its knowledge of its peers, established
// by the initialisation handshake and read by the other handlers.
// ---------------------------------------------------------------------------

#[verifier::ext_equal]
pub struct NodeStateV {
    pub node_id: Seq<u8>,
    pub neighbours: Seq<Seq<u8>>,
}

pub struct NodeState {
    node_id: Vec<u8>,
    neighbours: Vec<Vec<u8>>,
}

impl View for NodeState {
    type V = NodeStateV;

    closed spec fn view(&self) -> NodeStateV {
        NodeStateV { node_id: self.node_id@, neighbours: bytes_view(self.neighbours@) }
    }
}

pub open spec fn empty_state() -> NodeStateV {
    NodeStateV { node_id: Seq::<u8>::empty(), neighbours: Seq::<Seq<u8>>::empty() }
}

impl NodeState {
    pub fn set_node_id(&mut self, id: Vec<u8>)
        ensures
            final(self)@ == (NodeStateV { node_id: id@, neighbours: old(self)@.neighbours }),
    {
        self.node_id = id;
    }

    pub fn set_node_ids(&mut self, node_ids: Vec<Vec<u8>>)
        ensures
            final(self)@ == (NodeStateV {
                node_id: old(self)@.node_id,
                neighbours: bytes_view(node_ids@),
            }),
    {
        self.neighbours = node_ids;
    }

    pub fn node_id(&self) -> (r: &Vec<u8>)
        ensures
            r@ == self@.node_id,
    {
        &self.node_id
    }

    pub fn node_ids(&self) -> (r: &Vec<Vec<u8>>)
        ensures
            bytes_view(r@) == self@.neighbours,
    {
        &self.neighbours
    }
}

impl Default for NodeState {
    /// The uninitialised state: no identity, no peers.
    fn default() -> (r: NodeState)
        ensures
            r@ == empty_state(),
    {
        let r = NodeState { node_id: Vec::new(), neighbours: Vec::new() };
        proof {
            assert(bytes_view(Seq::<Vec<u8>>::empty()) =~= Seq::<Seq<u8>>::empty());
            assert(r@ =~= empty_state());
        }
        r
    }
}

// ---------------------------------------------------------------------------
// The handler contract.  A handler answers the command `spec_name` names.  On
// success it produces exactly one reply, addressed back to the sender, whose
// `in_reply_to` is the request's id; the request's id is passed through.
// The `ts` argument of `reply_of` stands for the one outside input a handler
// may consume (a clock reading); handlers that use none ignore it.
// ---------------------------------------------------------------------------

/// The mandatory relation between a request and any reply to it.
pub open spec fn reply_addressing(req: MessageV, r: MessageV) -> bool {
    &&& r.src == req.dst
    &&& r.dst == req.src
    &&& r.body.in_reply_to == req.body.id
    &&& r.body.id == req.body.id
}

pub trait Handler: Sized {
    /// The command this handler answers.
    spec fn spec_name(&self) -> Seq<u8>;

    /// The reply to `req` in state `st`, if the clock read `ts`.
    spec fn reply_of(&self, st: NodeStateV, req: MessageV, ts: u64) -> MessageV;

    /// The node state after handling `req` in state `st`.
    spec fn state_after(&self, st: NodeStateV, req: MessageV) -> NodeStateV;

    fn name(&self) -> (r: Vec<u8>)
        ensures
            r@ == self.spec_name(),
    ;

    fn handle(&self, state: &mut NodeState, message: &Message) -> (r: Message)
        requires
            command_of(message@.body.payload) == Some(self.spec_name()),
        ensures
            final(state)@ == self.state_after(old(state)@, message@),
            exists|ts: u64| r@ == self.reply_of(old(state)@, message@, ts),
            reply_addressing(message@, r@),
    ;
}

// ---------------------------------------------------------------------------
// The built-in handlers.
// ---------------------------------------------------------------------------

/// What initialisation does to the state: the request's identity and peer
/// list replace whatever held before.
pub open spec fn init_apply(st: NodeStateV, req: MessageV) -> NodeStateV {
    match req.body.payload {
        PayloadV::Init { node_id, node_ids } => NodeStateV { node_id, neighbours: node_ids },
        _ => st,
    }
}

/// Initialisation overwrites: after a second handshake the state is that of
/// the second request alone, whatever the first handshake -- or any earlier
/// state -- left behind.
pub proof fn lemma_init_overwrites(st: NodeStateV, a: MessageV, b: MessageV)
    requires
        b.body.payload is Init,
    ensures
        init_apply(init_apply(st, a), b) == init_apply(empty_state(), b),
{
}

/// The handshake handler: records identity and peers, answers `init_ok`.
#[derive(Clone, Copy)]
pub struct InitHandler;

impl Handler for InitHandler {
    open spec fn spec_name(&self) -> Seq<u8> {
        crate::wire::lit_init()
    }

    open spec fn reply_of(&self, st: NodeStateV, req: MessageV, ts: u64) -> MessageV {
        MessageV {
            src: req.dst,
            dst: req.src,
            body: BodyV { id: req.body.id, in_reply_to: req.body.id, payload: PayloadV::InitOk },
        }
    }

    open spec fn state_after(&self, st: NodeStateV, req: MessageV) -> NodeStateV {
        init_apply(st, req)
    }

    fn name(&self) -> (r: Vec<u8>) {
        crate::wire::lit_init_vec()
    }

    fn handle(&self, state: &mut NodeState, message: &Message) -> (r: Message) {
        match &message.body.payload {
            Payload::Init { node_id, node_ids } => {
                state.set_node_id(clone_bytes(node_id));
                state.set_node_ids(clone_bytes_list(node_ids));
                let r = Message {
                    src: clone_bytes(&message.dst),
                    dst: clone_bytes(&message.src),
                    body: Body {
                        id: message.body.id,
                        in_reply_to: message.body.id,
                        payload: Payload::InitOk,
                    },
                };
                proof {
                    assert(r@ == self.reply_of(old(state)@, message@, 0u64));
                }
                r
            },
            _ => vstd::pervasive::unreached(),
        }
    }
}

/// The echo handler: answers `echo_ok` carrying the request's `echo` back.
#[derive(Clone, Copy)]
pub struct EchoHandler;

impl Handler for EchoHandler {
    open spec fn spec_name(&self) -> Seq<u8> {
        crate::wire::lit_echo()
    }

    open spec fn reply_of(&self, st: NodeStateV, req: MessageV, ts: u64) -> MessageV {
        MessageV {
            src: req.dst,
            dst: req.src,
            body: BodyV {
                id: req.body.id,
                in_reply_to: req.body.id,
                payload: match req.body.payload {
                    PayloadV::Echo { echo } => PayloadV::EchoOk { echo },
                    _ => PayloadV::EchoOk { echo: Seq::<u8>::empty() },
                },
            },
        }
    }

    open spec fn state_after(&self, st: NodeStateV, req: MessageV) -> NodeStateV {
        st
    }

    fn name(&self) -> (r: Vec<u8>) {
        crate::wire::lit_echo_vec()
    }

    fn handle(&self, state: &mut NodeState, message: &Message) -> (r: Message) {
        match &message.body.payload {
            Payload::Echo { echo } => {
                let r = Message {
                    src: clone_bytes(&message.dst),
                    dst: clone_bytes(&message.src),
                    body: Body {
                        id: message.body.id,
                        in_reply_to: message.body.id,
                        payload: Payload::EchoOk { echo: clone_bytes(echo) },
                    },
                };
                proof {
                    assert(r@ == self.reply_of(old(state)@, message@, 0u64));
                }
                r
            },
            _ => vstd::pervasive::unreached(),
        }
    }
}

/// The id the generate handler hands out: the node's identity, an
/// underscore, and the clock reading in decimal.
pub open spec fn generated_id(st: NodeStateV, ts: u64) -> Seq<u8> {
    st.node_id + seq![95u8] + dec_digits(ts as nat)
}

/// The unique-id handler: answers `generate_ok` with an id built from the
/// node's identity and a clock reading.
#[derive(Clone, Copy)]
pub struct GenerateHandler;

impl Handler for GenerateHandler {
    open spec fn spec_name(&self) -> Seq<u8> {
        crate::wire::lit_generate()
    }

    open spec fn reply_of(&self, st: NodeStateV, req: MessageV, ts: u64) -> MessageV {
        MessageV {
            src: req.dst,
            dst: req.src,
            body: BodyV {
                id: req.body.id,
                in_reply_to: req.body.id,
                payload: PayloadV::GenerateOk { id: generated_id(st, ts) },
            },
        }
    }

    open spec fn state_after(&self, st: NodeStateV, req: MessageV) -> NodeStateV {
        st
    }

    fn name(&self) -> (r: Vec<u8>) {
        crate::wire::lit_generate_vec()
    }

    fn handle(&self, state: &mut NodeState, message: &Message) -> (r: Message) {
        let ts = now_micros();
        let mut idv = clone_bytes(state.node_id());
        idv.push(95);
        push_u64(&mut idv, ts);
        proof {
            assert(idv@ =~= generated_id(old(state)@, ts));
        }
        let r = Message {
            src: clone_bytes(&message.dst),
            dst: clone_bytes(&message.src),
            body: Body {
                id: message.body.id,
                in_reply_to: message.body.id,
                payload: Payload::GenerateOk { id: idv },
            },
        };
        proof {
            assert(r@ == self.reply_of(old(state)@, message@, ts));
        }
        r
    }
}

/// Relies on std::time::SystemTime::now and duration_since for a clock
/// reading: the microseconds since the Unix epoch, or 0 if the clock reads
/// earlier than the epoch.  Nothing is assumed of the value.
#[verifier::external_body]
fn now_micros() -> u64 {
    std::time::SystemTime::now().duration_since(std::time::UNIX_EPOCH).map_or(
        0,
        |d| d.as_micros() as u64,
    )
}

// ---------------------------------------------------------------------------
// The registry and the dispatch step.
// ---------------------------------------------------------------------------

/// One registered handler.  The registry is closed over the handlers this
/// crate defines, so dispatch is total and each arm's contract is exact.
#[derive(Clone, Copy)]
pub enum AnyHandler {
    Init(InitHandler),
    Echo(EchoHandler),
    Generate(GenerateHandler),
}

impl Handler for AnyHandler {
    open spec fn spec_name(&self) -> Seq<u8> {
        match self {
            AnyHandler::Init(h) => h.spec_name(),
            AnyHandler::Echo(h) => h.spec_name(),
            AnyHandler::Generate(h) => h.spec_name(),
        }
    }

    open spec fn reply_of(&self, st: NodeStateV, req: MessageV, ts: u64) -> MessageV {
        match self {
            AnyHandler::Init(h) => h.reply_of(st, req, ts),
            AnyHandler::Echo(h) => h.reply_of(st, req, ts),
            AnyHandler::Generate(h) => h.reply_of(st, req, ts),
        }
    }

    open spec fn state_after(&self, st: NodeStateV, req: MessageV) -> NodeStateV {
        match self {
            AnyHandler::Init(h) => h.state_after(st, req),
            AnyHandler::Echo(h) => h.state_after(st, req),
            AnyHandler::Generate(h) => h.state_after(st, req),
        }
    }

    fn name(&self) -> (r: Vec<u8>) {
        match self {
            AnyHandler::Init(h) => h.name(),
            AnyHandler::Echo(h) => h.name(),
            AnyHandler::Generate(h) => h.name(),
        }
    }

    fn handle(&self, state: &mut NodeState, message: &Message) -> (r: Message) {
        match self {
            AnyHandler::Init(h) => {
                let r = h.handle(state, message);
                proof {
                    let ts = choose|ts: u64| r@ == h.reply_of(old(state)@, message@, ts);
                    assert(r@ == self.reply_of(old(state)@, message@, ts));
                }
                r
            },
            AnyHandler::Echo(h) => {
                let r = h.handle(state, message);
                proof {
                    let ts = choose|ts: u64| r@ == h.reply_of(old(state)@, message@, ts);
                    assert(r@ == self.reply_of(old(state)@, message@, ts));
                }
                r
            },
            AnyHandler::Generate(h) => {
                let r = h.handle(state, message);
                proof {
                    let ts = choose|ts: u64| r@ == h.reply_of(old(state)@, message@, ts);
                    assert(r@ == self.reply_of(old(state)@, message@, ts));
                }
                r
            },
        }
    }
}

/// The handler a command is routed to: the most recently registered handler
/// of that name, so that registering anew replaces.
pub open spec fn find_handler(hs: Seq<AnyHandler>, name: Seq<u8>) -> Option<AnyHandler>
    decreases hs.len(),
{
    if hs.len() == 0 {
        None
    } else if hs.last().spec_name() == name {
        Some(hs.last())
    } else {
        find_handler(hs.drop_last(), name)
    }
}

pub proof fn lemma_find_handler_name(hs: Seq<AnyHandler>, name: Seq<u8>)
    ensures
        match find_handler(hs, name) {
            Some(h) => h.spec_name() == name,
            None => true,
        },
    decreases hs.len(),
{
    if hs.len() > 0 && hs.last().spec_name() != name {
        lemma_find_handler_name(hs.drop_last(), name);
    }
}

/// Registering a handler routes its own command to it and leaves every other
/// command routed as before.
pub proof fn lemma_find_handler_push(hs: Seq<AnyHandler>, h: AnyHandler, name: Seq<u8>)
    ensures
        find_handler(hs.push(h), name) == if h.spec_name() == name {
            Some(h)
        } else {
            find_handler(hs, name)
        },
{
    assert(hs.push(h).drop_last() =~= hs);
}

#[verifier::ext_equal]
pub struct NodeV {
    pub handlers: Seq<AnyHandler>,
    pub state: NodeStateV,
}

/// The runtime: a registry of handlers keyed by command name, and the node
/// state, driven one input line at a time.
pub struct Node {
    handlers: Vec<AnyHandler>,
    state: NodeState,
}

impl View for Node {
    type V = NodeV;

    closed spec fn view(&self) -> NodeV {
        NodeV { handlers: self.handlers@, state: self.state@ }
    }
}

/// What one input line led to: a reply to write out, or a reason to write
/// none.
pub enum Dispatch {
    /// The encoded reply, to be written as one output line.
    Reply(Vec<u8>),
    /// The line decoded, but no handler is registered under its command.
    NoHandler(Vec<u8>),
    /// The line decoded to a reply-only payload, which is never routed.
    Unroutable,
    /// The line did not decode.
    Malformed,
}

impl Node {
    /// A fresh runtime: uninitialised state, with the handshake handler
    /// pre-registered.
    pub fn new() -> (r: Node)
        ensures
            r@.handlers == seq![AnyHandler::Init(InitHandler)],
            r@.state == empty_state(),
    {
        let mut node = Node { handlers: Vec::new(), state: NodeState::default() };
        node.register(AnyHandler::Init(InitHandler));
        proof {
            assert(node@.handlers =~= seq![AnyHandler::Init(InitHandler)]);
        }
        node
    }

    /// The node state the handlers read and the handshake fills.
    pub fn state(&self) -> (r: &NodeState)
        ensures
            r@ == self@.state,
    {
        &self.state
    }

    /// Add a handler under its own name; a later registration under the same
    /// name replaces an earlier one (see `find_handler`).
    pub fn register(&mut self, handler: AnyHandler)
        ensures
            final(self)@.handlers == old(self)@.handlers.push(handler),
            final(self)@.state == old(self)@.state,
    {
        self.handlers.push(handler);
    }

    /// The registered handler for a command, newest first.
    fn lookup(&self, name: &Vec<u8>) -> (r: Option<AnyHandler>)
        ensures
            r == find_handler(self@.handlers, name@),
    {
        let ghost hs = self@.handlers;
        let mut j = self.handlers.len();
        proof {
            assert(hs.take(j as int) =~= hs);
        }
        while j > 0
            invariant
                j <= self.handlers@.len(),
                hs == self.handlers@,
                find_handler(hs, name@) == find_handler(hs.take(j as int), name@),
            decreases j,
        {
            j = j - 1;
            let h = self.handlers[j];
            let hn = h.name();
            proof {
                assert(hs.take(j + 1).last() == h);
                assert(hs.take(j + 1).drop_last() =~= hs.take(j as int));
            }
            if bytes_eq(&hn, name) {
                return Some(h);
            }
        }
        proof {
            assert(hs.take(0) =~= Seq::<AnyHandler>::empty());
        }
        None
    }

    /// One turn of the read-dispatch-respond loop, the reading and writing
    /// left to the caller: decode the line, route it, let the handler answer,
    /// and render the reply.  A line that does not decode, or decodes to
    /// something unroutable, changes nothing and produces no reply.
    pub fn handle_line(&mut self, line: &Vec<u8>) -> (r: Dispatch)
        ensures
            final(self)@.handlers == old(self)@.handlers,
            match parse_msg(line@) {
                None => r is Malformed && final(self)@.state == old(self)@.state,
                Some(m) => match command_of(m.body.payload) {
                    None => r is Unroutable && final(self)@.state == old(self)@.state,
                    Some(c) => match find_handler(old(self)@.handlers, c) {
                        None => (r matches Dispatch::NoHandler(n) && n@ == c) && final(self)@.state
                            == old(self)@.state,
                        Some(h) => {
                            &&& final(self)@.state == h.state_after(old(self)@.state, m)
                            &&& (r matches Dispatch::Reply(out) && exists|ts: u64| out@
                                == spec_encode(h.reply_of(old(self)@.state, m, ts)))
                        },
                    },
                },
            },
    {
        let msg = match decode_message(line) {
            Some(m) => m,
            None => {
                return Dispatch::Malformed;
            },
        };
        let cmd = match msg.body.command() {
            Some(c) => c,
            None => {
                return Dispatch::Unroutable;
            },
        };
        match self.lookup(&cmd) {
            None => Dispatch::NoHandler(cmd),
            Some(h) => {
                proof {
                    lemma_find_handler_name(self@.handlers, cmd@);
                }
                let reply = h.handle(&mut self.state, &msg);
                let out = encode_message(&reply);
                proof {
                    let m = parse_msg(line@)->Some_0;
                    let ts = choose|ts: u64| reply@ == h.reply_of(old(self)@.state, m, ts);
                    assert(out@ == spec_encode(h.reply_of(old(self)@.state, m, ts)));
                }
                Dispatch::Reply(out)
            },
        }
    }
}

impl Default for Node {
    /// The same runtime `new` builds.
    fn default() -> (r: Node)
        ensures
            r@.handlers == seq![AnyHandler::Init(InitHandler)],
            r@.state == empty_state(),
    {
        Node::new()
    }
}

} // verus!
