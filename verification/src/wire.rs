use vstd::prelude::*;

verus! {

// ---------------------------------------------------------------------------
// Wire message model: an envelope with a body, whose payload is a closed,
// tagged union.  Identifiers and string payload fields are byte strings,
// exactly as they travel on the wire.
// ---------------------------------------------------------------------------

/// One protocol envelope: source, destination, body.
#[derive(Debug, Clone, PartialEq, Eq)]
pub struct Message {
    pub src: Vec<u8>,
    pub dst: Vec<u8>,
    pub body: Body,
}

/// The body of an envelope: an optional per-sender request id, an optional
/// reference to the request a reply answers, and the tagged payload.
#[derive(Debug, Clone, PartialEq, Eq)]
pub struct Body {
    pub id: Option<u64>,
    pub in_reply_to: Option<u64>,
    pub payload: Payload,
}

/// The closed payload union.  The `*Ok` variants are outbound-only replies
/// and are never routed to a handler.
#[derive(Debug, Clone, PartialEq, Eq)]
pub enum Payload {
    Init { node_id: Vec<u8>, node_ids: Vec<Vec<u8>> },
    InitOk,
    Echo { echo: Vec<u8> },
    EchoOk { echo: Vec<u8> },
    Generate,
    GenerateOk { id: Vec<u8> },
}

// ---------------------------------------------------------------------------
// Mathematical views of the wire types.
// ---------------------------------------------------------------------------

#[verifier::ext_equal]
pub struct MessageV {
    pub src: Seq<u8>,
    pub dst: Seq<u8>,
    pub body: BodyV,
}

#[verifier::ext_equal]
pub struct BodyV {
    pub id: Option<u64>,
    pub in_reply_to: Option<u64>,
    pub payload: PayloadV,
}

#[verifier::ext_equal]
pub enum PayloadV {
    Init { node_id: Seq<u8>, node_ids: Seq<Seq<u8>> },
    InitOk,
    Echo { echo: Seq<u8> },
    EchoOk { echo: Seq<u8> },
    Generate,
    GenerateOk { id: Seq<u8> },
}

impl View for Payload {
    type V = PayloadV;

    open spec fn view(&self) -> PayloadV {
        match self {
            Payload::Init { node_id, node_ids } => PayloadV::Init {
                node_id: node_id@,
                node_ids: node_ids@.map_values(|v: Vec<u8>| v@),
            },
            Payload::InitOk => PayloadV::InitOk,
            Payload::Echo { echo } => PayloadV::Echo { echo: echo@ },
            Payload::EchoOk { echo } => PayloadV::EchoOk { echo: echo@ },
            Payload::Generate => PayloadV::Generate,
            Payload::GenerateOk { id } => PayloadV::GenerateOk { id: id@ },
        }
    }
}

impl View for Body {
    type V = BodyV;

    open spec fn view(&self) -> BodyV {
        BodyV { id: self.id, in_reply_to: self.in_reply_to, payload: self.payload@ }
    }
}

impl View for Message {
    type V = MessageV;

    open spec fn view(&self) -> MessageV {
        MessageV { src: self.src@, dst: self.dst@, body: self.body@ }
    }
}

// ---------------------------------------------------------------------------
// Byte-string literals used on the wire: payload tags and object keys.
// ---------------------------------------------------------------------------

pub open spec fn lit_init() -> Seq<u8> {
    seq![105, 110, 105, 116]
}

pub open spec fn lit_init_ok() -> Seq<u8> {
    seq![105, 110, 105, 116, 95, 111, 107]
}

pub open spec fn lit_echo() -> Seq<u8> {
    seq![101, 99, 104, 111]
}

pub open spec fn lit_echo_ok() -> Seq<u8> {
    seq![101, 99, 104, 111, 95, 111, 107]
}

pub open spec fn lit_generate() -> Seq<u8> {
    seq![103, 101, 110, 101, 114, 97, 116, 101]
}

pub open spec fn lit_generate_ok() -> Seq<u8> {
    seq![103, 101, 110, 101, 114, 97, 116, 101, 95, 111, 107]
}

pub open spec fn lit_src() -> Seq<u8> {
    seq![115, 114, 99]
}

pub open spec fn lit_dest() -> Seq<u8> {
    seq![100, 101, 115, 116]
}

pub open spec fn lit_body() -> Seq<u8> {
    seq![98, 111, 100, 121]
}

pub open spec fn lit_msg_id() -> Seq<u8> {
    seq![109, 115, 103, 95, 105, 100]
}

pub open spec fn lit_in_reply_to() -> Seq<u8> {
    seq![105, 110, 95, 114, 101, 112, 108, 121, 95, 116, 111]
}

pub open spec fn lit_type() -> Seq<u8> {
    seq![116, 121, 112, 101]
}

pub open spec fn lit_node_id() -> Seq<u8> {
    seq![110, 111, 100, 101, 95, 105, 100]
}

pub open spec fn lit_node_ids() -> Seq<u8> {
    seq![110, 111, 100, 101, 95, 105, 100, 115]
}

pub open spec fn lit_id() -> Seq<u8> {
    seq![105, 100]
}

// Executable builders of the same literals.

pub fn lit_init_vec() -> (r: Vec<u8>)
    ensures
        r@ == lit_init(),
{
    let r: Vec<u8> = vec![105, 110, 105, 116];
    assert(r@ =~= lit_init());
    r
}

pub fn lit_init_ok_vec() -> (r: Vec<u8>)
    ensures
        r@ == lit_init_ok(),
{
    let r: Vec<u8> = vec![105, 110, 105, 116, 95, 111, 107];
    assert(r@ =~= lit_init_ok());
    r
}

pub fn lit_echo_vec() -> (r: Vec<u8>)
    ensures
        r@ == lit_echo(),
{
    let r: Vec<u8> = vec![101, 99, 104, 111];
    assert(r@ =~= lit_echo());
    r
}

pub fn lit_echo_ok_vec() -> (r: Vec<u8>)
    ensures
        r@ == lit_echo_ok(),
{
    let r: Vec<u8> = vec![101, 99, 104, 111, 95, 111, 107];
    assert(r@ =~= lit_echo_ok());
    r
}

pub fn lit_generate_vec() -> (r: Vec<u8>)
    ensures
        r@ == lit_generate(),
{
    let r: Vec<u8> = vec![103, 101, 110, 101, 114, 97, 116, 101];
    assert(r@ =~= lit_generate());
    r
}

pub fn lit_generate_ok_vec() -> (r: Vec<u8>)
    ensures
        r@ == lit_generate_ok(),
{
    let r: Vec<u8> = vec![103, 101, 110, 101, 114, 97, 116, 101, 95, 111, 107];
    assert(r@ =~= lit_generate_ok());
    r
}

pub fn lit_src_vec() -> (r: Vec<u8>)
    ensures
        r@ == lit_src(),
{
    let r: Vec<u8> = vec![115, 114, 99];
    assert(r@ =~= lit_src());
    r
}

pub fn lit_dest_vec() -> (r: Vec<u8>)
    ensures
        r@ == lit_dest(),
{
    let r: Vec<u8> = vec![100, 101, 115, 116];
    assert(r@ =~= lit_dest());
    r
}

pub fn lit_body_vec() -> (r: Vec<u8>)
    ensures
        r@ == lit_body(),
{
    let r: Vec<u8> = vec![98, 111, 100, 121];
    assert(r@ =~= lit_body());
    r
}

pub fn lit_msg_id_vec() -> (r: Vec<u8>)
    ensures
        r@ == lit_msg_id(),
{
    let r: Vec<u8> = vec![109, 115, 103, 95, 105, 100];
    assert(r@ =~= lit_msg_id());
    r
}

pub fn lit_in_reply_to_vec() -> (r: Vec<u8>)
    ensures
        r@ == lit_in_reply_to(),
{
    let r: Vec<u8> = vec![105, 110, 95, 114, 101, 112, 108, 121, 95, 116, 111];
    assert(r@ =~= lit_in_reply_to());
    r
}

pub fn lit_type_vec() -> (r: Vec<u8>)
    ensures
        r@ == lit_type(),
{
    let r: Vec<u8> = vec![116, 121, 112, 101];
    assert(r@ =~= lit_type());
    r
}

pub fn lit_node_id_vec() -> (r: Vec<u8>)
    ensures
        r@ == lit_node_id(),
{
    let r: Vec<u8> = vec![110, 111, 100, 101, 95, 105, 100];
    assert(r@ =~= lit_node_id());
    r
}

pub fn lit_node_ids_vec() -> (r: Vec<u8>)
    ensures
        r@ == lit_node_ids(),
{
    let r: Vec<u8> = vec![110, 111, 100, 101, 95, 105, 100, 115];
    assert(r@ =~= lit_node_ids());
    r
}

pub fn lit_id_vec() -> (r: Vec<u8>)
    ensures
        r@ == lit_id(),
{
    let r: Vec<u8> = vec![105, 100];
    assert(r@ =~= lit_id());
    r
}

/// The wire literals are pairwise distinct, so key and tag dispatch is
/// unambiguous.
pub proof fn lemma_lits_distinct()
    ensures
        lit_init() != lit_init_ok(),
        lit_init() != lit_echo(),
        lit_init() != lit_echo_ok(),
        lit_init() != lit_generate(),
        lit_init() != lit_generate_ok(),
        lit_init() != lit_src(),
        lit_init() != lit_dest(),
        lit_init() != lit_body(),
        lit_init() != lit_msg_id(),
        lit_init() != lit_in_reply_to(),
        lit_init() != lit_type(),
        lit_init() != lit_node_id(),
        lit_init() != lit_node_ids(),
        lit_init() != lit_id(),
        lit_init_ok() != lit_echo(),
        lit_init_ok() != lit_echo_ok(),
        lit_init_ok() != lit_generate(),
        lit_init_ok() != lit_generate_ok(),
        lit_init_ok() != lit_src(),
        lit_init_ok() != lit_dest(),
        lit_init_ok() != lit_body(),
        lit_init_ok() != lit_msg_id(),
        lit_init_ok() != lit_in_reply_to(),
        lit_init_ok() != lit_type(),
        lit_init_ok() != lit_node_id(),
        lit_init_ok() != lit_node_ids(),
        lit_init_ok() != lit_id(),
        lit_echo() != lit_echo_ok(),
        lit_echo() != lit_generate(),
        lit_echo() != lit_generate_ok(),
        lit_echo() != lit_src(),
        lit_echo() != lit_dest(),
        lit_echo() != lit_body(),
        lit_echo() != lit_msg_id(),
        lit_echo() != lit_in_reply_to(),
        lit_echo() != lit_type(),
        lit_echo() != lit_node_id(),
        lit_echo() != lit_node_ids(),
        lit_echo() != lit_id(),
        lit_echo_ok() != lit_generate(),
        lit_echo_ok() != lit_generate_ok(),
        lit_echo_ok() != lit_src(),
        lit_echo_ok() != lit_dest(),
        lit_echo_ok() != lit_body(),
        lit_echo_ok() != lit_msg_id(),
        lit_echo_ok() != lit_in_reply_to(),
        lit_echo_ok() != lit_type(),
        lit_echo_ok() != lit_node_id(),
        lit_echo_ok() != lit_node_ids(),
        lit_echo_ok() != lit_id(),
        lit_generate() != lit_generate_ok(),
        lit_generate() != lit_src(),
        lit_generate() != lit_dest(),
        lit_generate() != lit_body(),
        lit_generate() != lit_msg_id(),
        lit_generate() != lit_in_reply_to(),
        lit_generate() != lit_type(),
        lit_generate() != lit_node_id(),
        lit_generate() != lit_node_ids(),
        lit_generate() != lit_id(),
        lit_generate_ok() != lit_src(),
        lit_generate_ok() != lit_dest(),
        lit_generate_ok() != lit_body(),
        lit_generate_ok() != lit_msg_id(),
        lit_generate_ok() != lit_in_reply_to(),
        lit_generate_ok() != lit_type(),
        lit_generate_ok() != lit_node_id(),
        lit_generate_ok() != lit_node_ids(),
        lit_generate_ok() != lit_id(),
        lit_src() != lit_dest(),
        lit_src() != lit_body(),
        lit_src() != lit_msg_id(),
        lit_src() != lit_in_reply_to(),
        lit_src() != lit_type(),
        lit_src() != lit_node_id(),
        lit_src() != lit_node_ids(),
        lit_src() != lit_id(),
        lit_dest() != lit_body(),
        lit_dest() != lit_msg_id(),
        lit_dest() != lit_in_reply_to(),
        lit_dest() != lit_type(),
        lit_dest() != lit_node_id(),
        lit_dest() != lit_node_ids(),
        lit_dest() != lit_id(),
        lit_body() != lit_msg_id(),
        lit_body() != lit_in_reply_to(),
        lit_body() != lit_type(),
        lit_body() != lit_node_id(),
        lit_body() != lit_node_ids(),
        lit_body() != lit_id(),
        lit_msg_id() != lit_in_reply_to(),
        lit_msg_id() != lit_type(),
        lit_msg_id() != lit_node_id(),
        lit_msg_id() != lit_node_ids(),
        lit_msg_id() != lit_id(),
        lit_in_reply_to() != lit_type(),
        lit_in_reply_to() != lit_node_id(),
        lit_in_reply_to() != lit_node_ids(),
        lit_in_reply_to() != lit_id(),
        lit_type() != lit_node_id(),
        lit_type() != lit_node_ids(),
        lit_type() != lit_id(),
        lit_node_id() != lit_node_ids(),
        lit_node_id() != lit_id(),
        lit_node_ids() != lit_id(),
{
    assert(lit_init().len() == 4);
    assert(lit_init_ok().len() == 7);
    assert(lit_echo().len() == 4);
    assert(lit_echo_ok().len() == 7);
    assert(lit_generate().len() == 8);
    assert(lit_generate_ok().len() == 11);
    assert(lit_src().len() == 3);
    assert(lit_dest().len() == 4);
    assert(lit_body().len() == 4);
    assert(lit_msg_id().len() == 6);
    assert(lit_in_reply_to().len() == 11);
    assert(lit_type().len() == 4);
    assert(lit_node_id().len() == 7);
    assert(lit_node_ids().len() == 8);
    assert(lit_id().len() == 2);
    assert(lit_init()[0] != lit_echo()[0]);
    assert(lit_init()[0] != lit_dest()[0]);
    assert(lit_init()[0] != lit_body()[0]);
    assert(lit_init()[0] != lit_type()[0]);
    assert(lit_init_ok()[0] != lit_echo_ok()[0]);
    assert(lit_init_ok()[0] != lit_node_id()[0]);
    assert(lit_echo()[0] != lit_dest()[0]);
    assert(lit_echo()[0] != lit_body()[0]);
    assert(lit_echo()[0] != lit_type()[0]);
    assert(lit_echo_ok()[0] != lit_node_id()[0]);
    assert(lit_generate()[0] != lit_node_ids()[0]);
    assert(lit_generate_ok()[0] != lit_in_reply_to()[0]);
    assert(lit_dest()[0] != lit_body()[0]);
    assert(lit_dest()[0] != lit_type()[0]);
    assert(lit_body()[0] != lit_type()[0]);
}

// ---------------------------------------------------------------------------
// Command derivation: the routing key of a payload.  Reply-only variants have
// no command: they are never dispatch targets.
// ---------------------------------------------------------------------------

/// The command a payload is routed by, or `None` for reply-only variants.
pub open spec fn command_of(p: PayloadV) -> Option<Seq<u8>> {
    match p {
        PayloadV::Init { .. } => Some(lit_init()),
        PayloadV::Echo { .. } => Some(lit_echo()),
        PayloadV::Generate => Some(lit_generate()),
        _ => None,
    }
}

impl Body {
    /// The command this body is routed by: `init`, `echo` or `generate`.
    /// Reply-only (`*_ok`) payloads are unroutable and yield `None`.
    pub fn command(&self) -> (r: Option<Vec<u8>>)
        ensures
            match r {
                Some(c) => command_of(self@.payload) == Some(c@),
                None => command_of(self@.payload) is None,
            },
    {
        match &self.payload {
            Payload::Init { .. } => {
                let c: Vec<u8> = vec![105, 110, 105, 116];
                assert(c@ =~= lit_init());
                Some(c)
            },
            Payload::Echo { .. } => {
                let c: Vec<u8> = vec![101, 99, 104, 111];
                assert(c@ =~= lit_echo());
                Some(c)
            },
            Payload::Generate => {
                let c: Vec<u8> = vec![103, 101, 110, 101, 114, 97, 116, 101];
                assert(c@ =~= lit_generate());
                Some(c)
            },
            _ => None,
        }
    }
}

} // verus!
