use vstd::prelude::*;
use crate::json::{bytes_eq, bytes_view, clone_bytes, clone_bytes_list, efields_view,
    enc_envelope, lemma_parse_envelope_enc, parse_envelope, push_obj,
    push_str_value, sfields_view, take_envelope,
    EVal, EValV, JVal, JValV, COLON, COMMA, LBR, RBR};
use crate::wire::{lit_body, lit_dest, lit_echo, lit_echo_ok, lit_generate, lit_generate_ok,
    lit_id, lit_in_reply_to, lit_init, lit_init_ok, lit_msg_id, lit_node_id, lit_node_ids,
    lit_body_vec, lit_dest_vec, lit_echo_vec, lit_id_vec, lit_in_reply_to_vec, lit_init_vec,
    lit_init_ok_vec, lit_echo_ok_vec, lit_generate_vec, lit_generate_ok_vec, lit_msg_id_vec,
    lit_node_id_vec, lit_node_ids_vec, lit_src_vec, lit_type_vec,
    lemma_lits_distinct, lit_src, lit_type, Body, BodyV, Message, MessageV, Payload,
    PayloadV};

verus! {

// ---------------------------------------------------------------------------
// The message codec: how an envelope object is read as a `Message` and how a
// `Message` is rendered back to bytes.
//
// Reading has two stages.  The JSON layer turns a line into a member list;
// this layer folds the member list into a message, insisting on exactly the
// members the indicated payload tag allows, each at most once.
// ---------------------------------------------------------------------------

pub open spec fn opt_bytes_view(o: Option<Vec<u8>>) -> Option<Seq<u8>> {
    match o {
        Some(v) => Some(v@),
        None => None,
    }
}

pub open spec fn opt_list_view(o: Option<Vec<Vec<u8>>>) -> Option<Seq<Seq<u8>>> {
    match o {
        Some(v) => Some(bytes_view(v@)),
        None => None,
    }
}

/// What has been collected while folding the members of an envelope object.
#[verifier::ext_equal]
pub struct EnvAcc {
    pub src: Option<Seq<u8>>,
    pub dst: Option<Seq<u8>>,
    pub body: Option<BodyV>,
}

/// What has been collected while folding the members of a body object.  The
/// two counter members distinguish "absent" from "present as null".
#[verifier::ext_equal]
pub struct BodyAcc {
    pub id: Option<Option<u64>>,
    pub irt: Option<Option<u64>>,
    pub typ: Option<Seq<u8>>,
    pub node_id: Option<Seq<u8>>,
    pub node_ids: Option<Seq<Seq<u8>>>,
    pub echo: Option<Seq<u8>>,
    pub idf: Option<Seq<u8>>,
}

pub open spec fn body_acc0() -> BodyAcc {
    BodyAcc {
        id: None,
        irt: None,
        typ: None,
        node_id: None,
        node_ids: None,
        echo: None,
        idf: None,
    }
}

/// Account for one member of a body object: a known key, not seen before,
/// with a value of the right shape -- anything else is a decode failure.
pub open spec fn body_add(acc: BodyAcc, k: Seq<u8>, v: JValV) -> Option<BodyAcc> {
    if k == lit_msg_id() {
        if acc.id is None {
            match v {
                JValV::Int(n) => Some(BodyAcc { id: Some(Some(n)), ..acc }),
                JValV::Null => Some(BodyAcc { id: Some(None), ..acc }),
                _ => None,
            }
        } else {
            None
        }
    } else if k == lit_in_reply_to() {
        if acc.irt is None {
            match v {
                JValV::Int(n) => Some(BodyAcc { irt: Some(Some(n)), ..acc }),
                JValV::Null => Some(BodyAcc { irt: Some(None), ..acc }),
                _ => None,
            }
        } else {
            None
        }
    } else if k == lit_type() {
        match v {
            JValV::Str(t) => {
                if acc.typ is None {
                    Some(BodyAcc { typ: Some(t), ..acc })
                } else {
                    None
                }
            },
            _ => None,
        }
    } else if k == lit_node_id() {
        match v {
            JValV::Str(t) => {
                if acc.node_id is None {
                    Some(BodyAcc { node_id: Some(t), ..acc })
                } else {
                    None
                }
            },
            _ => None,
        }
    } else if k == lit_node_ids() {
        match v {
            JValV::Arr(es) => {
                if acc.node_ids is None {
                    Some(BodyAcc { node_ids: Some(es), ..acc })
                } else {
                    None
                }
            },
            _ => None,
        }
    } else if k == lit_echo() {
        match v {
            JValV::Str(t) => {
                if acc.echo is None {
                    Some(BodyAcc { echo: Some(t), ..acc })
                } else {
                    None
                }
            },
            _ => None,
        }
    } else if k == lit_id() {
        match v {
            JValV::Str(t) => {
                if acc.idf is None {
                    Some(BodyAcc { idf: Some(t), ..acc })
                } else {
                    None
                }
            },
            _ => None,
        }
    } else {
        None
    }
}

pub open spec fn body_fold(fs: Seq<(Seq<u8>, JValV)>, acc: BodyAcc) -> Option<BodyAcc>
    decreases fs.len(),
{
    if fs.len() == 0 {
        Some(acc)
    } else {
        match body_add(acc, fs[0].0, fs[0].1) {
            Some(a2) => body_fold(fs.drop_first(), a2),
            None => None,
        }
    }
}

pub open spec fn opt_flat(o: Option<Option<u64>>) -> Option<u64> {
    match o {
        Some(x) => x,
        None => None,
    }
}

/// Turn a fully folded body accumulator into a body: the tag must be present
/// and known, with exactly the members its variant carries.
pub open spec fn finish_body(acc: BodyAcc) -> Option<BodyV> {
    match acc.typ {
        None => None,
        Some(t) => {
            let id = opt_flat(acc.id);
            let irt = opt_flat(acc.irt);
            if t == lit_init() {
                match (acc.node_id, acc.node_ids) {
                    (Some(ni), Some(ns)) => {
                        if acc.echo is None && acc.idf is None {
                            Some(
                                BodyV {
                                    id,
                                    in_reply_to: irt,
                                    payload: PayloadV::Init { node_id: ni, node_ids: ns },
                                },
                            )
                        } else {
                            None
                        }
                    },
                    _ => None,
                }
            } else if t == lit_init_ok() {
                if acc.node_id is None && acc.node_ids is None && acc.echo is None && acc.idf
                    is None {
                    Some(BodyV { id, in_reply_to: irt, payload: PayloadV::InitOk })
                } else {
                    None
                }
            } else if t == lit_echo() {
                match acc.echo {
                    Some(e) => {
                        if acc.node_id is None && acc.node_ids is None && acc.idf is None {
                            Some(BodyV { id, in_reply_to: irt, payload: PayloadV::Echo { echo: e } })
                        } else {
                            None
                        }
                    },
                    None => None,
                }
            } else if t == lit_echo_ok() {
                match acc.echo {
                    Some(e) => {
                        if acc.node_id is None && acc.node_ids is None && acc.idf is None {
                            Some(
                                BodyV {
                                    id,
                                    in_reply_to: irt,
                                    payload: PayloadV::EchoOk { echo: e },
                                },
                            )
                        } else {
                            None
                        }
                    },
                    None => None,
                }
            } else if t == lit_generate() {
                if acc.node_id is None && acc.node_ids is None && acc.echo is None && acc.idf
                    is None {
                    Some(BodyV { id, in_reply_to: irt, payload: PayloadV::Generate })
                } else {
                    None
                }
            } else if t == lit_generate_ok() {
                match acc.idf {
                    Some(x) => {
                        if acc.node_id is None && acc.node_ids is None && acc.echo is None {
                            Some(
                                BodyV {
                                    id,
                                    in_reply_to: irt,
                                    payload: PayloadV::GenerateOk { id: x },
                                },
                            )
                        } else {
                            None
                        }
                    },
                    None => None,
                }
            } else {
                None
            }
        },
    }
}

pub open spec fn build_body(fs: Seq<(Seq<u8>, JValV)>) -> Option<BodyV> {
    match body_fold(fs, body_acc0()) {
        Some(acc) => finish_body(acc),
        None => None,
    }
}

/// Account for one member of the envelope object.
pub open spec fn env_add(acc: EnvAcc, k: Seq<u8>, v: EValV) -> Option<EnvAcc> {
    if k == lit_src() {
        match v {
            EValV::Sv(JValV::Str(t)) => {
                if acc.src is None {
                    Some(EnvAcc { src: Some(t), ..acc })
                } else {
                    None
                }
            },
            _ => None,
        }
    } else if k == lit_dest() {
        match v {
            EValV::Sv(JValV::Str(t)) => {
                if acc.dst is None {
                    Some(EnvAcc { dst: Some(t), ..acc })
                } else {
                    None
                }
            },
            _ => None,
        }
    } else if k == lit_body() {
        match v {
            EValV::Obj(bfs) => {
                if acc.body is None {
                    match build_body(bfs) {
                        Some(b) => Some(EnvAcc { body: Some(b), ..acc }),
                        None => None,
                    }
                } else {
                    None
                }
            },
            _ => None,
        }
    } else {
        None
    }
}

pub open spec fn env_fold(fs: Seq<(Seq<u8>, EValV)>, acc: EnvAcc) -> Option<EnvAcc>
    decreases fs.len(),
{
    if fs.len() == 0 {
        Some(acc)
    } else {
        match env_add(acc, fs[0].0, fs[0].1) {
            Some(a2) => env_fold(fs.drop_first(), a2),
            None => None,
        }
    }
}

pub open spec fn build_msg(fs: Seq<(Seq<u8>, EValV)>) -> Option<MessageV> {
    match env_fold(fs, EnvAcc { src: None, dst: None, body: None }) {
        Some(acc) => match (acc.src, acc.dst, acc.body) {
            (Some(s), Some(d), Some(b)) => Some(MessageV { src: s, dst: d, body: b }),
            _ => None,
        },
        None => None,
    }
}

/// What one line decodes to, if anything.
pub open spec fn parse_msg(s: Seq<u8>) -> Option<MessageV> {
    match parse_envelope(s) {
        Some(fs) => build_msg(fs),
        None => None,
    }
}

// ---------------------------------------------------------------------------
// The canonical rendering of a message: members in a fixed order, optional
// counters omitted when absent.
// ---------------------------------------------------------------------------

pub open spec fn opt_field(k: Seq<u8>, o: Option<u64>) -> Seq<(Seq<u8>, JValV)> {
    match o {
        Some(n) => seq![(k, JValV::Int(n))],
        None => Seq::<(Seq<u8>, JValV)>::empty(),
    }
}

/// The tag member followed by the members of the payload variant.
pub open spec fn payload_fields(p: PayloadV) -> Seq<(Seq<u8>, JValV)> {
    match p {
        PayloadV::Init { node_id, node_ids } => seq![
            (lit_type(), JValV::Str(lit_init())),
            (lit_node_id(), JValV::Str(node_id)),
            (lit_node_ids(), JValV::Arr(node_ids)),
        ],
        PayloadV::InitOk => seq![(lit_type(), JValV::Str(lit_init_ok()))],
        PayloadV::Echo { echo } => seq![
            (lit_type(), JValV::Str(lit_echo())),
            (lit_echo(), JValV::Str(echo)),
        ],
        PayloadV::EchoOk { echo } => seq![
            (lit_type(), JValV::Str(lit_echo_ok())),
            (lit_echo(), JValV::Str(echo)),
        ],
        PayloadV::Generate => seq![(lit_type(), JValV::Str(lit_generate()))],
        PayloadV::GenerateOk { id } => seq![
            (lit_type(), JValV::Str(lit_generate_ok())),
            (lit_id(), JValV::Str(id)),
        ],
    }
}

pub open spec fn body_fields(b: BodyV) -> Seq<(Seq<u8>, JValV)> {
    opt_field(lit_msg_id(), b.id) + opt_field(lit_in_reply_to(), b.in_reply_to) + payload_fields(
        b.payload,
    )
}

pub open spec fn env_fields(m: MessageV) -> Seq<(Seq<u8>, EValV)> {
    seq![
        (lit_src(), EValV::Sv(JValV::Str(m.src))),
        (lit_dest(), EValV::Sv(JValV::Str(m.dst))),
        (lit_body(), EValV::Obj(body_fields(m.body))),
    ]
}

/// The canonical wire rendering of a message.
pub open spec fn spec_encode(m: MessageV) -> Seq<u8> {
    enc_envelope(env_fields(m))
}

// ---------------------------------------------------------------------------
// Executable decoding.
// ---------------------------------------------------------------------------

pub open spec fn opt_body_view(o: Option<Body>) -> Option<BodyV> {
    match o {
        Some(b) => Some(b@),
        None => None,
    }
}

pub open spec fn mk_body_acc(
    id: Option<Option<u64>>,
    irt: Option<Option<u64>>,
    typ: Option<Vec<u8>>,
    nid: Option<Vec<u8>>,
    nids: Option<Vec<Vec<u8>>>,
    echo: Option<Vec<u8>>,
    idf: Option<Vec<u8>>,
) -> BodyAcc {
    BodyAcc {
        id,
        irt,
        typ: opt_bytes_view(typ),
        node_id: opt_bytes_view(nid),
        node_ids: opt_list_view(nids),
        echo: opt_bytes_view(echo),
        idf: opt_bytes_view(idf),
    }
}

pub open spec fn mk_env_acc(
    src: Option<Vec<u8>>,
    dst: Option<Vec<u8>>,
    body: Option<Body>,
) -> EnvAcc {
    EnvAcc { src: opt_bytes_view(src), dst: opt_bytes_view(dst), body: opt_body_view(body) }
}

fn opt_flat_x(o: Option<Option<u64>>) -> (r: Option<u64>)
    ensures
        r == opt_flat(o),
{
    match o {
        Some(x) => x,
        None => None,
    }
}

/// Executable mirror of `build_body`.  The ghost argument pins the member
/// list as it stood at the call, which the body consumes as it folds.
fn build_body_x(mut fs: Vec<(Vec<u8>, JVal)>, Ghost(orig): Ghost<Seq<(Seq<u8>, JValV)>>) -> (r:
    Option<Body>)
    requires
        orig == sfields_view(fs@),
    ensures
        match r {
            Some(b) => build_body(orig) == Some(b@),
            None => build_body(orig) is None,
        },
{
    let mut id_slot: Option<Option<u64>> = None;
    let mut irt_slot: Option<Option<u64>> = None;
    let mut typ_s: Option<Vec<u8>> = None;
    let mut nid_s: Option<Vec<u8>> = None;
    let mut nids_s: Option<Vec<Vec<u8>>> = None;
    let mut echo_s: Option<Vec<u8>> = None;
    let mut idf_s: Option<Vec<u8>> = None;
    while fs.len() > 0
        invariant
            body_fold(orig, body_acc0()) == body_fold(
                sfields_view(fs@),
                mk_body_acc(id_slot, irt_slot, typ_s, nid_s, nids_s, echo_s, idf_s),
            ),
        decreases fs@.len(),
    {
        let ghost cur = sfields_view(fs@);
        let ghost acc_pre = mk_body_acc(id_slot, irt_slot, typ_s, nid_s, nids_s, echo_s, idf_s);
        let (k, v) = fs.remove(0);
        proof {
            assert(cur[0] == (k@, v@));
            assert(sfields_view(fs@) =~= cur.drop_first());
        }
        if bytes_eq(&k, &lit_msg_id_vec()) {
            if id_slot.is_some() {
                return None;
            }
            match v {
                JVal::Int(n) => {
                    id_slot = Some(Some(n));
                },
                JVal::Null => {
                    id_slot = Some(None);
                },
                _ => {
                    return None;
                },
            }
        } else if bytes_eq(&k, &lit_in_reply_to_vec()) {
            if irt_slot.is_some() {
                return None;
            }
            match v {
                JVal::Int(n) => {
                    irt_slot = Some(Some(n));
                },
                JVal::Null => {
                    irt_slot = Some(None);
                },
                _ => {
                    return None;
                },
            }
        } else if bytes_eq(&k, &lit_type_vec()) {
            if typ_s.is_some() {
                return None;
            }
            match v {
                JVal::Str(t) => {
                    typ_s = Some(t);
                },
                _ => {
                    return None;
                },
            }
        } else if bytes_eq(&k, &lit_node_id_vec()) {
            if nid_s.is_some() {
                return None;
            }
            match v {
                JVal::Str(t) => {
                    nid_s = Some(t);
                },
                _ => {
                    return None;
                },
            }
        } else if bytes_eq(&k, &lit_node_ids_vec()) {
            if nids_s.is_some() {
                return None;
            }
            match v {
                JVal::Arr(es) => {
                    nids_s = Some(es);
                },
                _ => {
                    return None;
                },
            }
        } else if bytes_eq(&k, &lit_echo_vec()) {
            if echo_s.is_some() {
                return None;
            }
            match v {
                JVal::Str(t) => {
                    echo_s = Some(t);
                },
                _ => {
                    return None;
                },
            }
        } else if bytes_eq(&k, &lit_id_vec()) {
            if idf_s.is_some() {
                return None;
            }
            match v {
                JVal::Str(t) => {
                    idf_s = Some(t);
                },
                _ => {
                    return None;
                },
            }
        } else {
            return None;
        }
        proof {
            assert(body_add(acc_pre, k@, v@) == Some(
                mk_body_acc(id_slot, irt_slot, typ_s, nid_s, nids_s, echo_s, idf_s),
            ));
        }
    }
    proof {
        assert(sfields_view(fs@) =~= Seq::<(Seq<u8>, JValV)>::empty());
    }
    let ghost accf = mk_body_acc(id_slot, irt_slot, typ_s, nid_s, nids_s, echo_s, idf_s);
    assert(body_fold(orig, body_acc0()) == Some(accf));
    let t = match typ_s {
        Some(t) => t,
        None => {
            return None;
        },
    };
    let idv = opt_flat_x(id_slot);
    let irtv = opt_flat_x(irt_slot);
    if bytes_eq(&t, &lit_init_vec()) {
        match (nid_s, nids_s) {
            (Some(ni), Some(ns)) => {
                if echo_s.is_some() || idf_s.is_some() {
                    return None;
                }
                Some(
                    Body {
                        id: idv,
                        in_reply_to: irtv,
                        payload: Payload::Init { node_id: ni, node_ids: ns },
                    },
                )
            },
            _ => None,
        }
    } else if bytes_eq(&t, &lit_init_ok_vec()) {
        if nid_s.is_some() || nids_s.is_some() || echo_s.is_some() || idf_s.is_some() {
            return None;
        }
        Some(Body { id: idv, in_reply_to: irtv, payload: Payload::InitOk })
    } else if bytes_eq(&t, &lit_echo_vec()) {
        match echo_s {
            Some(e) => {
                if nid_s.is_some() || nids_s.is_some() || idf_s.is_some() {
                    return None;
                }
                Some(Body { id: idv, in_reply_to: irtv, payload: Payload::Echo { echo: e } })
            },
            None => None,
        }
    } else if bytes_eq(&t, &lit_echo_ok_vec()) {
        match echo_s {
            Some(e) => {
                if nid_s.is_some() || nids_s.is_some() || idf_s.is_some() {
                    return None;
                }
                Some(Body { id: idv, in_reply_to: irtv, payload: Payload::EchoOk { echo: e } })
            },
            None => None,
        }
    } else if bytes_eq(&t, &lit_generate_vec()) {
        if nid_s.is_some() || nids_s.is_some() || echo_s.is_some() || idf_s.is_some() {
            return None;
        }
        Some(Body { id: idv, in_reply_to: irtv, payload: Payload::Generate })
    } else if bytes_eq(&t, &lit_generate_ok_vec()) {
        match idf_s {
            Some(x) => {
                if nid_s.is_some() || nids_s.is_some() || echo_s.is_some() {
                    return None;
                }
                Some(Body { id: idv, in_reply_to: irtv, payload: Payload::GenerateOk { id: x } })
            },
            None => None,
        }
    } else {
        None
    }
}

/// Executable mirror of `build_msg`.  The ghost argument pins the member
/// list as it stood at the call.
fn build_msg_x(mut fs: Vec<(Vec<u8>, EVal)>, Ghost(orig): Ghost<Seq<(Seq<u8>, EValV)>>) -> (r:
    Option<Message>)
    requires
        orig == efields_view(fs@),
    ensures
        match r {
            Some(m) => build_msg(orig) == Some(m@),
            None => build_msg(orig) is None,
        },
{
    let mut src_s: Option<Vec<u8>> = None;
    let mut dst_s: Option<Vec<u8>> = None;
    let mut body_s: Option<Body> = None;
    while fs.len() > 0
        invariant
            env_fold(orig, EnvAcc { src: None, dst: None, body: None }) == env_fold(
                efields_view(fs@),
                mk_env_acc(src_s, dst_s, body_s),
            ),
        decreases fs@.len(),
    {
        let ghost cur = efields_view(fs@);
        let ghost acc_pre = mk_env_acc(src_s, dst_s, body_s);
        let (k, v) = fs.remove(0);
        proof {
            assert(cur[0] == (k@, v@));
            assert(efields_view(fs@) =~= cur.drop_first());
        }
        if bytes_eq(&k, &lit_src_vec()) {
            if src_s.is_some() {
                return None;
            }
            match v {
                EVal::Sv(JVal::Str(t)) => {
                    src_s = Some(t);
                },
                _ => {
                    return None;
                },
            }
        } else if bytes_eq(&k, &lit_dest_vec()) {
            if dst_s.is_some() {
                return None;
            }
            match v {
                EVal::Sv(JVal::Str(t)) => {
                    dst_s = Some(t);
                },
                _ => {
                    return None;
                },
            }
        } else if bytes_eq(&k, &lit_body_vec()) {
            if body_s.is_some() {
                return None;
            }
            match v {
                EVal::Obj(bfs) => {
                    match build_body_x(bfs, Ghost(sfields_view(bfs@))) {
                        Some(b) => {
                            body_s = Some(b);
                        },
                        None => {
                            return None;
                        },
                    }
                },
                _ => {
                    return None;
                },
            }
        } else {
            return None;
        }
        proof {
            assert(env_add(acc_pre, k@, v@) == Some(mk_env_acc(src_s, dst_s, body_s)));
        }
    }
    proof {
        assert(efields_view(fs@) =~= Seq::<(Seq<u8>, EValV)>::empty());
    }
    match (src_s, dst_s, body_s) {
        (Some(sv), Some(dv), Some(bv)) => Some(Message { src: sv, dst: dv, body: bv }),
        _ => None,
    }
}

/// Decode one line of input, exactly as `parse_msg` describes: `None` both
/// for lines that are not well-formed objects of this grammar and for objects
/// that do not carry a known message shape.
pub fn decode_message(line: &Vec<u8>) -> (r: Option<Message>)
    ensures
        match r {
            Some(m) => parse_msg(line@) == Some(m@),
            None => parse_msg(line@) is None,
        },
{
    match take_envelope(line) {
        Some(fs) => build_msg_x(fs, Ghost(efields_view(fs@))),
        None => None,
    }
}

// ---------------------------------------------------------------------------
// Executable encoding.
// ---------------------------------------------------------------------------

/// Render a message in the canonical form `spec_encode` describes.
#[verifier::rlimit(100)]
pub fn encode_message(m: &Message) -> (r: Vec<u8>)
    ensures
        r@ == spec_encode(m@),
{
    let mut bfs: Vec<(Vec<u8>, JVal)> = Vec::new();
    match m.body.id {
        Some(n) => {
            bfs.push((lit_msg_id_vec(), JVal::Int(n)));
            assert(sfields_view(bfs@) =~= opt_field(lit_msg_id(), m@.body.id));
        },
        None => {
            assert(sfields_view(bfs@) =~= opt_field(lit_msg_id(), m@.body.id));
        },
    }
    let ghost p1 = sfields_view(bfs@);
    match m.body.in_reply_to {
        Some(n) => {
            bfs.push((lit_in_reply_to_vec(), JVal::Int(n)));
            assert(sfields_view(bfs@) =~= p1 + opt_field(lit_in_reply_to(), m@.body.in_reply_to));
        },
        None => {
            assert(sfields_view(bfs@) =~= p1 + opt_field(lit_in_reply_to(), m@.body.in_reply_to));
        },
    }
    let ghost p2 = sfields_view(bfs@);
    match &m.body.payload {
        Payload::Init { node_id, node_ids } => {
            bfs.push((lit_type_vec(), JVal::Str(lit_init_vec())));
            bfs.push((lit_node_id_vec(), JVal::Str(clone_bytes(node_id))));
            bfs.push((lit_node_ids_vec(), JVal::Arr(clone_bytes_list(node_ids))));
            assert(sfields_view(bfs@) =~= p2 + payload_fields(m@.body.payload));
        },
        Payload::InitOk => {
            bfs.push((lit_type_vec(), JVal::Str(lit_init_ok_vec())));
            assert(sfields_view(bfs@) =~= p2 + payload_fields(m@.body.payload));
        },
        Payload::Echo { echo } => {
            bfs.push((lit_type_vec(), JVal::Str(lit_echo_vec())));
            bfs.push((lit_echo_vec(), JVal::Str(clone_bytes(echo))));
            assert(sfields_view(bfs@) =~= p2 + payload_fields(m@.body.payload));
        },
        Payload::EchoOk { echo } => {
            bfs.push((lit_type_vec(), JVal::Str(lit_echo_ok_vec())));
            bfs.push((lit_echo_vec(), JVal::Str(clone_bytes(echo))));
            assert(sfields_view(bfs@) =~= p2 + payload_fields(m@.body.payload));
        },
        Payload::Generate => {
            bfs.push((lit_type_vec(), JVal::Str(lit_generate_vec())));
            assert(sfields_view(bfs@) =~= p2 + payload_fields(m@.body.payload));
        },
        Payload::GenerateOk { id } => {
            bfs.push((lit_type_vec(), JVal::Str(lit_generate_ok_vec())));
            bfs.push((lit_id_vec(), JVal::Str(clone_bytes(id))));
            assert(sfields_view(bfs@) =~= p2 + payload_fields(m@.body.payload));
        },
    }
    proof {
        assert(sfields_view(bfs@) =~= body_fields(m@.body));
    }
    let mut out: Vec<u8> = Vec::new();
    out.push(LBR);
    let k_src = lit_src_vec();
    push_str_value(&mut out, &k_src);
    out.push(COLON);
    push_str_value(&mut out, &m.src);
    out.push(COMMA);
    let k_dest = lit_dest_vec();
    push_str_value(&mut out, &k_dest);
    out.push(COLON);
    push_str_value(&mut out, &m.dst);
    out.push(COMMA);
    let k_body = lit_body_vec();
    push_str_value(&mut out, &k_body);
    out.push(COLON);
    push_obj(&mut out, &bfs);
    out.push(RBR);
    proof {
        let fsv = env_fields(m@);
        let f1 = fsv[1];
        let f2 = fsv[2];
        assert(fsv.drop_first() =~= seq![f1, f2]);
        assert(seq![f1, f2].drop_first() =~= seq![f2]);
        assert(crate::json::enc_efields_inner(seq![f2]) == crate::json::enc_efield(f2));
        assert(crate::json::enc_efields_inner(seq![f1, f2]) == crate::json::enc_efield(f1)
            + seq![COMMA] + crate::json::enc_efield(f2));
        assert(out@ =~= spec_encode(m@));
    }
    out
}

// ---------------------------------------------------------------------------
// Round trip: the canonical rendering of any message decodes back to it.
// ---------------------------------------------------------------------------

pub open spec fn opt_lift(o: Option<u64>) -> Option<Option<u64>> {
    match o {
        Some(n) => Some(Some(n)),
        None => None,
    }
}

pub proof fn lemma_body_fold_concat(
    a: Seq<(Seq<u8>, JValV)>,
    b: Seq<(Seq<u8>, JValV)>,
    acc: BodyAcc,
)
    ensures
        body_fold(a + b, acc) == (match body_fold(a, acc) {
            Some(x) => body_fold(b, x),
            None => None,
        }),
    decreases a.len(),
{
    if a.len() == 0 {
        assert(a + b =~= b);
    } else {
        assert((a + b)[0] == a[0]);
        assert((a + b).drop_first() =~= a.drop_first() + b);
        match body_add(acc, a[0].0, a[0].1) {
            Some(x) => {
                lemma_body_fold_concat(a.drop_first(), b, x);
            },
            None => {},
        }
    }
}

/// Folding the canonical member list of a body recovers the body.
pub proof fn lemma_build_body_fields(b: BodyV)
    ensures
        build_body(body_fields(b)) == Some(b),
{
    lemma_lits_distinct();
    let o1 = opt_field(lit_msg_id(), b.id);
    let o2 = opt_field(lit_in_reply_to(), b.in_reply_to);
    let pf = payload_fields(b.payload);
    let acc0 = body_acc0();
    let acc1 = BodyAcc { id: opt_lift(b.id), ..acc0 };
    let acc2 = BodyAcc { irt: opt_lift(b.in_reply_to), ..acc1 };
    assert(body_fields(b) =~= o1 + (o2 + pf));
    lemma_body_fold_concat(o1, o2 + pf, acc0);
    lemma_body_fold_concat(o2, pf, acc1);
    match b.id {
        Some(n) => {
            assert(o1 == seq![(lit_msg_id(), JValV::Int(n))]);
            assert(o1.drop_first() =~= Seq::<(Seq<u8>, JValV)>::empty());
            assert(body_add(acc0, o1[0].0, o1[0].1) == Some(acc1));
            assert(body_fold(Seq::<(Seq<u8>, JValV)>::empty(), acc1) == Some(acc1));
            assert(body_fold(o1, acc0) == Some(acc1));
        },
        None => {
            assert(acc1 =~= acc0);
            assert(body_fold(o1, acc0) == Some(acc1));
        },
    }
    match b.in_reply_to {
        Some(n) => {
            assert(o2 == seq![(lit_in_reply_to(), JValV::Int(n))]);
            assert(o2.drop_first() =~= Seq::<(Seq<u8>, JValV)>::empty());
            assert(body_add(acc1, o2[0].0, o2[0].1) == Some(acc2));
            assert(body_fold(Seq::<(Seq<u8>, JValV)>::empty(), acc2) == Some(acc2));
            assert(body_fold(o2, acc1) == Some(acc2));
        },
        None => {
            assert(acc2 =~= acc1);
            assert(body_fold(o2, acc1) == Some(acc2));
        },
    }
    assert(opt_flat(opt_lift(b.id)) == b.id);
    assert(opt_flat(opt_lift(b.in_reply_to)) == b.in_reply_to);
    match b.payload {
        PayloadV::Init { node_id, node_ids } => {
            let e0 = (lit_type(), JValV::Str(lit_init()));
            let e1 = (lit_node_id(), JValV::Str(node_id));
            let e2 = (lit_node_ids(), JValV::Arr(node_ids));
            assert(pf == seq![e0, e1, e2]);
            let a3 = BodyAcc { typ: Some(lit_init()), ..acc2 };
            let a4 = BodyAcc { node_id: Some(node_id), ..a3 };
            let a5 = BodyAcc { node_ids: Some(node_ids), ..a4 };
            assert(pf.drop_first() =~= seq![e1, e2]);
            assert(seq![e1, e2].drop_first() =~= seq![e2]);
            assert(seq![e2].drop_first() =~= Seq::<(Seq<u8>, JValV)>::empty());
            assert(body_add(acc2, e0.0, e0.1) == Some(a3));
            assert(body_add(a3, e1.0, e1.1) == Some(a4));
            assert(body_add(a4, e2.0, e2.1) == Some(a5));
            assert(body_fold(Seq::<(Seq<u8>, JValV)>::empty(), a5) == Some(a5));
            assert(body_fold(seq![e2], a4) == Some(a5));
            assert(body_fold(seq![e1, e2], a3) == Some(a5));
            assert(body_fold(pf, acc2) == Some(a5));
            assert(finish_body(a5) == Some(b));
        },
        PayloadV::InitOk => {
            let e0 = (lit_type(), JValV::Str(lit_init_ok()));
            assert(pf == seq![e0]);
            let a3 = BodyAcc { typ: Some(lit_init_ok()), ..acc2 };
            assert(pf.drop_first() =~= Seq::<(Seq<u8>, JValV)>::empty());
            assert(body_add(acc2, e0.0, e0.1) == Some(a3));
            assert(body_fold(Seq::<(Seq<u8>, JValV)>::empty(), a3) == Some(a3));
            assert(body_fold(pf, acc2) == Some(a3));
            assert(finish_body(a3) == Some(b));
        },
        PayloadV::Echo { echo } => {
            let e0 = (lit_type(), JValV::Str(lit_echo()));
            let e1 = (lit_echo(), JValV::Str(echo));
            assert(pf == seq![e0, e1]);
            let a3 = BodyAcc { typ: Some(lit_echo()), ..acc2 };
            let a4 = BodyAcc { echo: Some(echo), ..a3 };
            assert(pf.drop_first() =~= seq![e1]);
            assert(seq![e1].drop_first() =~= Seq::<(Seq<u8>, JValV)>::empty());
            assert(body_add(acc2, e0.0, e0.1) == Some(a3));
            assert(body_add(a3, e1.0, e1.1) == Some(a4));
            assert(body_fold(Seq::<(Seq<u8>, JValV)>::empty(), a4) == Some(a4));
            assert(body_fold(seq![e1], a3) == Some(a4));
            assert(body_fold(pf, acc2) == Some(a4));
            assert(finish_body(a4) == Some(b));
        },
        PayloadV::EchoOk { echo } => {
            let e0 = (lit_type(), JValV::Str(lit_echo_ok()));
            let e1 = (lit_echo(), JValV::Str(echo));
            assert(pf == seq![e0, e1]);
            let a3 = BodyAcc { typ: Some(lit_echo_ok()), ..acc2 };
            let a4 = BodyAcc { echo: Some(echo), ..a3 };
            assert(pf.drop_first() =~= seq![e1]);
            assert(seq![e1].drop_first() =~= Seq::<(Seq<u8>, JValV)>::empty());
            assert(body_add(acc2, e0.0, e0.1) == Some(a3));
            assert(body_add(a3, e1.0, e1.1) == Some(a4));
            assert(body_fold(Seq::<(Seq<u8>, JValV)>::empty(), a4) == Some(a4));
            assert(body_fold(seq![e1], a3) == Some(a4));
            assert(body_fold(pf, acc2) == Some(a4));
            assert(finish_body(a4) == Some(b));
        },
        PayloadV::Generate => {
            let e0 = (lit_type(), JValV::Str(lit_generate()));
            assert(pf == seq![e0]);
            let a3 = BodyAcc { typ: Some(lit_generate()), ..acc2 };
            assert(pf.drop_first() =~= Seq::<(Seq<u8>, JValV)>::empty());
            assert(body_add(acc2, e0.0, e0.1) == Some(a3));
            assert(body_fold(Seq::<(Seq<u8>, JValV)>::empty(), a3) == Some(a3));
            assert(body_fold(pf, acc2) == Some(a3));
            assert(finish_body(a3) == Some(b));
        },
        PayloadV::GenerateOk { id } => {
            let e0 = (lit_type(), JValV::Str(lit_generate_ok()));
            let e1 = (lit_id(), JValV::Str(id));
            assert(pf == seq![e0, e1]);
            let a3 = BodyAcc { typ: Some(lit_generate_ok()), ..acc2 };
            let a4 = BodyAcc { idf: Some(id), ..a3 };
            assert(pf.drop_first() =~= seq![e1]);
            assert(seq![e1].drop_first() =~= Seq::<(Seq<u8>, JValV)>::empty());
            assert(body_add(acc2, e0.0, e0.1) == Some(a3));
            assert(body_add(a3, e1.0, e1.1) == Some(a4));
            assert(body_fold(Seq::<(Seq<u8>, JValV)>::empty(), a4) == Some(a4));
            assert(body_fold(seq![e1], a3) == Some(a4));
            assert(body_fold(pf, acc2) == Some(a4));
            assert(finish_body(a4) == Some(b));
        },
    }
}

/// Folding the canonical member list of an envelope recovers the message.
pub proof fn lemma_build_msg_fields(m: MessageV)
    ensures
        build_msg(env_fields(m)) == Some(m),
{
    lemma_lits_distinct();
    lemma_build_body_fields(m.body);
    let fs = env_fields(m);
    let acc0 = EnvAcc { src: None, dst: None, body: None };
    let a1 = EnvAcc { src: Some(m.src), ..acc0 };
    let a2 = EnvAcc { dst: Some(m.dst), ..a1 };
    let a3 = EnvAcc { body: Some(m.body), ..a2 };
    assert(fs.drop_first() =~= seq![fs[1], fs[2]]);
    assert(seq![fs[1], fs[2]].drop_first() =~= seq![fs[2]]);
    assert(seq![fs[2]].drop_first() =~= Seq::<(Seq<u8>, EValV)>::empty());
    assert(env_add(acc0, fs[0].0, fs[0].1) == Some(a1));
    assert(env_add(a1, fs[1].0, fs[1].1) == Some(a2));
    assert(env_add(a2, fs[2].0, fs[2].1) == Some(a3));
    assert(env_fold(Seq::<(Seq<u8>, EValV)>::empty(), a3) == Some(a3));
    assert(env_fold(seq![fs[2]], a2) == Some(a3));
    assert(env_fold(seq![fs[1], fs[2]], a1) == Some(a3));
    assert(env_fold(fs, acc0) == Some(a3));
}

/// The canonical rendering of any message decodes back to that message.
pub proof fn lemma_encode_decode(m: MessageV)
    ensures
        parse_msg(spec_encode(m)) == Some(m),
{
    lemma_parse_envelope_enc(env_fields(m));
    lemma_build_msg_fields(m);
}

/// Round trip: whatever a line decodes to, its re-encoding decodes to the
/// same value.
pub proof fn lemma_round_trip(line: Seq<u8>)
    ensures
        match parse_msg(line) {
            Some(m) => parse_msg(spec_encode(m)) == Some(m),
            None => true,
        },
{
    match parse_msg(line) {
        Some(m) => lemma_encode_decode(m),
        None => {},
    }
}

} // verus!
