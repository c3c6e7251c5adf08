//! The closed set of operation descriptors, each with a fixed wire shape,
//! and the law that encoding preserves that shape.

use vstd::prelude::*;
use vstd::string::StringSliceAdditionalSpecFns;

use crate::lexi_data::{SimpleString, ValueModel};
use crate::lexi_type::{lexi_type_model, LexiType};
use crate::wire::{
    enc_value, lemma_parse_enc, ping_frame, spec_parse, wf_value, DecodeError,
};

verus! {

/// One operation, named and fully parameterized; immutable once built and
/// consumed exactly once when serialized.
pub enum Cmd<'a> {
    Ping,
    Pop,
    Deque,
    Keys,
    Values,
    Entries,
    SetKey(SetCmd<'a>),
    Get(GetCmd<'a>),
    Del(DelCmd<'a>),
    Push(PushCmd),
    Enque(EnqueCmd),
    ClusterNew(ClusterNewCmd<'a>),
    ClusterSet(ClusterSetCmd<'a>),
    ClusterGet(ClusterGetCmd<'a>),
    ClusterDel(ClusterDelCmd<'a>),
    ClusterPush(ClusterPushCmd<'a>),
    ClusterPop(ClusterPopCmd<'a>),
    ClusterKeys(ClusterKeysCmd<'a>),
    ClusterValues(ClusterValuesCmd<'a>),
    ClusterEntries(ClusterEntriesCmd<'a>),
    ClusterDrop(ClusterDropCmd<'a>),
}

pub struct SetCmd<'a> {
    pub key: &'a str,
    pub value: LexiType,
}

pub struct GetCmd<'a> {
    pub key: &'a str,
}

pub type DelCmd<'a> = GetCmd<'a>;

pub struct PushCmd {
    pub value: LexiType,
}

pub type EnqueCmd = PushCmd;

pub struct ClusterNewCmd<'a> {
    pub name: &'a str,
}

pub struct ClusterSetCmd<'a> {
    pub name: &'a str,
    pub key: &'a str,
    pub value: LexiType,
}

pub struct ClusterGetCmd<'a> {
    pub name: &'a str,
    pub key: &'a str,
}

pub type ClusterDelCmd<'a> = ClusterGetCmd<'a>;

pub struct ClusterPushCmd<'a> {
    pub name: &'a str,
    pub value: LexiType,
}

pub type ClusterPopCmd<'a> = ClusterNewCmd<'a>;

pub type ClusterKeysCmd<'a> = ClusterNewCmd<'a>;

pub type ClusterValuesCmd<'a> = ClusterNewCmd<'a>;

pub type ClusterEntriesCmd<'a> = ClusterNewCmd<'a>;

pub type ClusterDropCmd<'a> = ClusterNewCmd<'a>;

/// A command's value field, where it has one, holds a bulk string or an
/// integer; nothing else reaches the wire.
pub open spec fn wf_cmd(c: Cmd) -> bool {
    match c {
        Cmd::SetKey(sc) => sc.value is BulkString || sc.value is Int,
        Cmd::Push(pc) => pc.value is BulkString || pc.value is Int,
        Cmd::Enque(ec) => ec.value is BulkString || ec.value is Int,
        Cmd::ClusterSet(cc) => cc.value is BulkString || cc.value is Int,
        Cmd::ClusterPush(cc) => cc.value is BulkString || cc.value is Int,
        _ => true,
    }
}

/// The frame value each command serializes to: the documented field order
/// and count, with the command name first.  `Ping` is the one exception:
/// it goes out as the inline simple frame and has no decodable value.
pub open spec fn cmd_model(c: Cmd) -> ValueModel
    recommends
        !(c is Ping),
        wf_cmd(c),
{
    match c {
        Cmd::Ping => ValueModel::Simple(SimpleString::Pong),
        Cmd::Pop => ValueModel::Bulk("POP".spec_bytes()),
        Cmd::Deque => ValueModel::Bulk("DEQUE".spec_bytes()),
        Cmd::Keys => ValueModel::Bulk("KEYS".spec_bytes()),
        Cmd::Values => ValueModel::Bulk("VALUES".spec_bytes()),
        Cmd::Entries => ValueModel::Bulk("ENTRIES".spec_bytes()),
        Cmd::SetKey(sc) => ValueModel::Array(
            seq![
                ValueModel::Bulk("SET".spec_bytes()),
                ValueModel::Bulk(sc.key.spec_bytes()),
                lexi_type_model(sc.value),
            ],
        ),
        Cmd::Get(gc) => ValueModel::Array(
            seq![ValueModel::Bulk("GET".spec_bytes()), ValueModel::Bulk(gc.key.spec_bytes())],
        ),
        Cmd::Del(dc) => ValueModel::Array(
            seq![ValueModel::Bulk("DEL".spec_bytes()), ValueModel::Bulk(dc.key.spec_bytes())],
        ),
        Cmd::Push(pc) => ValueModel::Array(
            seq![ValueModel::Bulk("PUSH".spec_bytes()), lexi_type_model(pc.value)],
        ),
        Cmd::Enque(ec) => ValueModel::Array(
            seq![ValueModel::Bulk("ENQUE".spec_bytes()), lexi_type_model(ec.value)],
        ),
        Cmd::ClusterNew(cc) => ValueModel::Array(
            seq![
                ValueModel::Bulk("CLUSTER.NEW".spec_bytes()),
                ValueModel::Bulk(cc.name.spec_bytes()),
            ],
        ),
        Cmd::ClusterSet(cc) => ValueModel::Array(
            seq![
                ValueModel::Bulk("CLUSTER.SET".spec_bytes()),
                ValueModel::Bulk(cc.name.spec_bytes()),
                ValueModel::Bulk(cc.key.spec_bytes()),
                lexi_type_model(cc.value),
            ],
        ),
        Cmd::ClusterGet(cc) => ValueModel::Array(
            seq![
                ValueModel::Bulk("CLUSTER.GET".spec_bytes()),
                ValueModel::Bulk(cc.name.spec_bytes()),
                ValueModel::Bulk(cc.key.spec_bytes()),
            ],
        ),
        Cmd::ClusterDel(cc) => ValueModel::Array(
            seq![
                ValueModel::Bulk("CLUSTER.DEL".spec_bytes()),
                ValueModel::Bulk(cc.name.spec_bytes()),
                ValueModel::Bulk(cc.key.spec_bytes()),
            ],
        ),
        Cmd::ClusterPush(cc) => ValueModel::Array(
            seq![
                ValueModel::Bulk("CLUSTER.PUSh".spec_bytes()),
                ValueModel::Bulk(cc.name.spec_bytes()),
                lexi_type_model(cc.value),
            ],
        ),
        Cmd::ClusterPop(cc) => ValueModel::Array(
            seq![
                ValueModel::Bulk("CLUSTER.POP".spec_bytes()),
                ValueModel::Bulk(cc.name.spec_bytes()),
            ],
        ),
        Cmd::ClusterKeys(cc) => ValueModel::Array(
            seq![
                ValueModel::Bulk("CLUSTER.KEYS".spec_bytes()),
                ValueModel::Bulk(cc.name.spec_bytes()),
            ],
        ),
        Cmd::ClusterValues(cc) => ValueModel::Array(
            seq![
                ValueModel::Bulk("CLUSTER.VALUES".spec_bytes()),
                ValueModel::Bulk(cc.name.spec_bytes()),
            ],
        ),
        Cmd::ClusterEntries(cc) => ValueModel::Array(
            seq![
                ValueModel::Bulk("CLUSTER.ENTRIES".spec_bytes()),
                ValueModel::Bulk(cc.name.spec_bytes()),
            ],
        ),
        Cmd::ClusterDrop(cc) => ValueModel::Array(
            seq![
                ValueModel::Bulk("CLUSTER.DROP".spec_bytes()),
                ValueModel::Bulk(cc.name.spec_bytes()),
            ],
        ),
    }
}

/// The bytes one command serializes to.
pub open spec fn cmd_frame(c: Cmd) -> Seq<u8> {
    if c is Ping {
        ping_frame()
    } else {
        enc_value(cmd_model(c))
    }
}

/// The frame value of any well-formed non-ping command is well formed.
pub proof fn lemma_cmd_model_wf(c: Cmd)
    requires
        wf_cmd(c),
        !(c is Ping),
    ensures
        wf_value(cmd_model(c)),
{
    match cmd_model(c) {
        ValueModel::Array(vs) => {
            assert forall|i: int| 0 <= i < vs.len() implies wf_value(#[trigger] vs[i]) by {}
        },
        _ => {},
    }
}

/// Command shape fidelity: decoding the frame of any well-formed command
/// other than `Ping` yields exactly the documented field order and count;
/// `Ping` goes out as the literal inline `+PING` line.
pub proof fn lemma_cmd_shape(c: Cmd)
    requires
        wf_cmd(c),
    ensures
        c is Ping ==> cmd_frame(c) == ping_frame(),
        !(c is Ping) ==> spec_parse(cmd_frame(c)) == Ok::<(ValueModel, int), DecodeError>(
            (cmd_model(c), cmd_frame(c).len() as int),
        ),
{
    if !(c is Ping) {
        lemma_cmd_model_wf(c);
        assert(enc_value(cmd_model(c)) + Seq::<u8>::empty() =~= enc_value(cmd_model(c)));
        lemma_parse_enc(cmd_model(c), Seq::empty());
    }
}

} // verus!
