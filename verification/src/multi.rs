//! The pipeline batcher: accumulates an ordered run of commands, serializes
//! them contiguously for a single round trip, and decodes exactly one
//! response frame per queued command, in order.

use vstd::prelude::*;
use vstd::string::StringSliceAdditionalSpecFns;

use crate::builder::Builder;
use crate::cmd::{
    cmd_frame, Cmd, ClusterDelCmd, ClusterDropCmd, ClusterEntriesCmd, ClusterGetCmd,
    ClusterKeysCmd, ClusterNewCmd, ClusterPopCmd, ClusterPushCmd, ClusterSetCmd, ClusterValuesCmd,
    DelCmd, EnqueCmd, GetCmd, PushCmd, SetCmd, wf_cmd,
};
use crate::lexi_data::{lemma_models_of_push, models_of, LexiData, ValueModel};
use crate::lexi_type::{lexi_type_model, LexiType};
use crate::parser::parse_at;
use crate::wire::{
    enc_value, lemma_enc_items2, lemma_enc_items3, lemma_enc_items4, lemma_parse_consumed,
    spec_parse, spec_parse_items, DecodeError,
};

verus! {

/// The bytes of a run of commands, one frame after the other, in order,
/// with no batch-level framing around them.
pub open spec fn multi_frames(cs: Seq<Cmd>) -> Seq<u8>
    decreases cs,
{
    if cs.len() == 0 {
        Seq::empty()
    } else {
        cmd_frame(cs[0]) + multi_frames(cs.subrange(1, cs.len() as int))
    }
}

/// Appending a command to a run appends its frame to the run's bytes.
pub proof fn lemma_multi_frames_push(cs: Seq<Cmd>, c: Cmd)
    ensures
        multi_frames(cs.push(c)) == multi_frames(cs) + cmd_frame(c),
    decreases cs,
{
    if cs.len() == 0 {
        assert(cs.push(c)[0] == c);
        assert(cs.push(c).subrange(1, cs.push(c).len() as int) =~= Seq::<Cmd>::empty());
        assert(multi_frames(Seq::<Cmd>::empty()) =~= Seq::<u8>::empty());
        assert(multi_frames(cs.push(c)) =~= multi_frames(cs) + cmd_frame(c));
    } else {
        assert(cs.push(c)[0] == cs[0]);
        let tail = cs.subrange(1, cs.len() as int);
        assert(cs.push(c).subrange(1, cs.push(c).len() as int) =~= tail.push(c));
        lemma_multi_frames_push(tail, c);
        assert(multi_frames(cs.push(c)) =~= multi_frames(cs) + cmd_frame(c));
    }
}

/// Every command of the run is well formed.
pub open spec fn wf_cmds(cs: Seq<Cmd>) -> bool {
    forall|i: int| 0 <= i < cs.len() ==> wf_cmd(#[trigger] cs[i])
}

/// An ordered batch of commands, sent in one write and answered with one
/// response frame per command.
pub struct Multi<'a> {
    cmds: Vec<Cmd<'a>>,
}

impl<'a> Multi<'a> {
    /// The queued commands, in insertion order.
    pub closed spec fn cmds_seq(&self) -> Seq<Cmd<'a>> {
        self.cmds@
    }

    /// An empty pipeline.
    pub fn new() -> (r: Self)
        ensures
            r.cmds_seq() == Seq::<Cmd<'a>>::empty(),
    {
        Multi { cmds: Vec::new() }
    }

    /// Queues a ping.
    pub fn add_ping(self) -> (r: Self)
        ensures
            r.cmds_seq() == self.cmds_seq().push(Cmd::Ping),
    {
        let mut m = self;
        m.cmds.push(Cmd::Ping);
        m
    }

    /// Queues a `SET key value`.
    pub fn add_set(self, key: &'a str, value: LexiType) -> (r: Self)
        requires
            value is BulkString || value is Int,
        ensures
            r.cmds_seq() == self.cmds_seq().push(Cmd::SetKey((SetCmd { key, value }))),
    {
        let mut m = self;
        m.cmds.push(Cmd::SetKey(SetCmd { key, value }));
        m
    }

    /// Queues a `GET key`.
    pub fn add_get(self, key: &'a str) -> (r: Self)
        ensures
            r.cmds_seq() == self.cmds_seq().push(Cmd::Get((GetCmd { key }))),
    {
        let mut m = self;
        m.cmds.push(Cmd::Get(GetCmd { key }));
        m
    }

    /// Queues a `DEL key`.
    pub fn add_del(self, key: &'a str) -> (r: Self)
        ensures
            r.cmds_seq() == self.cmds_seq().push(Cmd::Del((DelCmd { key }))),
    {
        let mut m = self;
        m.cmds.push(Cmd::Del(DelCmd { key }));
        m
    }

    /// Queues a `PUSH value`.
    pub fn add_push(self, value: LexiType) -> (r: Self)
        requires
            value is BulkString || value is Int,
        ensures
            r.cmds_seq() == self.cmds_seq().push(Cmd::Push((PushCmd { value }))),
    {
        let mut m = self;
        m.cmds.push(Cmd::Push(PushCmd { value }));
        m
    }

    /// Queues a `POP`.
    pub fn add_pop(self) -> (r: Self)
        ensures
            r.cmds_seq() == self.cmds_seq().push(Cmd::Pop),
    {
        let mut m = self;
        m.cmds.push(Cmd::Pop);
        m
    }

    /// Queues an `ENQUE value`.
    pub fn add_enque(self, value: LexiType) -> (r: Self)
        requires
            value is BulkString || value is Int,
        ensures
            r.cmds_seq() == self.cmds_seq().push(Cmd::Enque((EnqueCmd { value }))),
    {
        let mut m = self;
        m.cmds.push(Cmd::Enque(EnqueCmd { value }));
        m
    }

    /// Queues a `DEQUE`.
    pub fn add_deque(self) -> (r: Self)
        ensures
            r.cmds_seq() == self.cmds_seq().push(Cmd::Deque),
    {
        let mut m = self;
        m.cmds.push(Cmd::Deque);
        m
    }

    /// Queues a `KEYS`.
    pub fn add_keys(self) -> (r: Self)
        ensures
            r.cmds_seq() == self.cmds_seq().push(Cmd::Keys),
    {
        let mut m = self;
        m.cmds.push(Cmd::Keys);
        m
    }

    /// Queues a `VALUES`.
    pub fn add_values(self) -> (r: Self)
        ensures
            r.cmds_seq() == self.cmds_seq().push(Cmd::Values),
    {
        let mut m = self;
        m.cmds.push(Cmd::Values);
        m
    }

    /// Queues an `ENTRIES`.
    pub fn add_entries(self) -> (r: Self)
        ensures
            r.cmds_seq() == self.cmds_seq().push(Cmd::Entries),
    {
        let mut m = self;
        m.cmds.push(Cmd::Entries);
        m
    }

    /// Queues a `CLUSTER.NEW name`.
    pub fn add_cluster_new(self, name: &'a str) -> (r: Self)
        ensures
            r.cmds_seq() == self.cmds_seq().push(Cmd::ClusterNew((ClusterNewCmd { name }))),
    {
        let mut m = self;
        m.cmds.push(Cmd::ClusterNew(ClusterNewCmd { name }));
        m
    }

    /// Queues a `CLUSTER.SET name key value`.
    pub fn add_cluster_set(self, name: &'a str, key: &'a str, value: LexiType) -> (r: Self)
        requires
            value is BulkString || value is Int,
        ensures
            r.cmds_seq() == self.cmds_seq().push(
                Cmd::ClusterSet((ClusterSetCmd { name, key, value })),
            ),
    {
        let mut m = self;
        m.cmds.push(Cmd::ClusterSet(ClusterSetCmd { name, key, value }));
        m
    }

    /// Queues a `CLUSTER.GET name key`.
    pub fn add_cluster_get(self, name: &'a str, key: &'a str) -> (r: Self)
        ensures
            r.cmds_seq() == self.cmds_seq().push(Cmd::ClusterGet((ClusterGetCmd { name, key }))),
    {
        let mut m = self;
        m.cmds.push(Cmd::ClusterGet(ClusterGetCmd { name, key }));
        m
    }

    /// Queues a `CLUSTER.DEL name key`.
    pub fn add_cluster_del(self, name: &'a str, key: &'a str) -> (r: Self)
        ensures
            r.cmds_seq() == self.cmds_seq().push(Cmd::ClusterDel((ClusterDelCmd { name, key }))),
    {
        let mut m = self;
        m.cmds.push(Cmd::ClusterDel(ClusterDelCmd { name, key }));
        m
    }

    /// Queues a `CLUSTER.PUSh name value`.
    pub fn add_cluster_push(self, name: &'a str, value: LexiType) -> (r: Self)
        requires
            value is BulkString || value is Int,
        ensures
            r.cmds_seq() == self.cmds_seq().push(
                Cmd::ClusterPush((ClusterPushCmd { name, value })),
            ),
    {
        let mut m = self;
        m.cmds.push(Cmd::ClusterPush(ClusterPushCmd { name, value }));
        m
    }

    /// Queues a `CLUSTER.POP name`.
    pub fn add_cluster_pop(self, name: &'a str) -> (r: Self)
        ensures
            r.cmds_seq() == self.cmds_seq().push(Cmd::ClusterPop((ClusterPopCmd { name }))),
    {
        let mut m = self;
        m.cmds.push(Cmd::ClusterPop(ClusterPopCmd { name }));
        m
    }

    /// Queues a `CLUSTER.KEYS name`.
    pub fn add_cluster_keys(self, name: &'a str) -> (r: Self)
        ensures
            r.cmds_seq() == self.cmds_seq().push(Cmd::ClusterKeys((ClusterKeysCmd { name }))),
    {
        let mut m = self;
        m.cmds.push(Cmd::ClusterKeys(ClusterKeysCmd { name }));
        m
    }

    /// Queues a `CLUSTER.VALUES name`.
    pub fn add_cluster_values(self, name: &'a str) -> (r: Self)
        ensures
            r.cmds_seq() == self.cmds_seq().push(Cmd::ClusterValues((ClusterValuesCmd { name }))),
    {
        let mut m = self;
        m.cmds.push(Cmd::ClusterValues(ClusterValuesCmd { name }));
        m
    }

    /// Queues a `CLUSTER.ENTRIES name`.
    pub fn add_cluster_entries(self, name: &'a str) -> (r: Self)
        ensures
            r.cmds_seq() == self.cmds_seq().push(
                Cmd::ClusterEntries((ClusterEntriesCmd { name })),
            ),
    {
        let mut m = self;
        m.cmds.push(Cmd::ClusterEntries(ClusterEntriesCmd { name }));
        m
    }

    /// Queues a `CLUSTER.DROP name`.
    pub fn add_cluster_drop(self, name: &'a str) -> (r: Self)
        ensures
            r.cmds_seq() == self.cmds_seq().push(Cmd::ClusterDrop((ClusterDropCmd { name }))),
    {
        let mut m = self;
        m.cmds.push(Cmd::ClusterDrop(ClusterDropCmd { name }));
        m
    }

    /// Serializes the queued commands into one contiguous request buffer,
    /// in insertion order, with no batch-level framing.
    #[verifier::loop_isolation(false)]
    #[verifier::rlimit(100)]
    pub fn build_cmd(&self) -> (r: Vec<u8>)
        requires
            wf_cmds(self.cmds_seq()),
        ensures
            r@ == multi_frames(self.cmds_seq()),
    {
        let ghost cs = self.cmds@;
        let mut b = Builder::new();
        let mut i: usize = 0;
        proof {
            assert(cs.take(0) =~= Seq::<Cmd>::empty());
            assert(b@ =~= multi_frames(cs.take(0)));
        }
        while i < self.cmds.len()
            invariant
                i <= self.cmds.len(),
                b@ == multi_frames(cs.take(i as int)),
            decreases self.cmds.len() - i,
        {
            let ghost pre = b@;
            b = Self::add_cmd_frame(b, &self.cmds[i]);
            proof {
                assert(cs.take(i as int).push(cs[i as int]) =~= cs.take(i + 1));
                lemma_multi_frames_push(cs.take(i as int), cs[i as int]);
            }
            i = i + 1;
        }
        proof {
            assert(cs.take(cs.len() as int) =~= cs);
        }
        b.out()
    }

    /// Appends one command's frame to the builder.
    fn add_cmd_frame(b: Builder, cmd: &Cmd<'a>) -> (r: Builder)
        requires
            wf_cmd(*cmd),
        ensures
            r@ == b@ + cmd_frame(*cmd),
    {
        match cmd {
            Cmd::ClusterNew(_) | Cmd::ClusterSet(_) | Cmd::ClusterGet(_) | Cmd::ClusterDel(_)
            | Cmd::ClusterPush(_) | Cmd::ClusterPop(_) | Cmd::ClusterKeys(_)
            | Cmd::ClusterValues(_) | Cmd::ClusterEntries(_) | Cmd::ClusterDrop(_) => {
                Self::add_cluster_cmd_frame(b, cmd)
            },
            _ => Self::add_basic_cmd_frame(b, cmd),
        }
    }

    /// Appends the frame of a command outside the cluster-scoped set.
    #[verifier::rlimit(100)]
    fn add_basic_cmd_frame(b: Builder, cmd: &Cmd<'a>) -> (r: Builder)
        requires
            wf_cmd(*cmd),
            !(*cmd is ClusterNew) && !(*cmd is ClusterSet) && !(*cmd is ClusterGet) && !(*cmd
                is ClusterDel) && !(*cmd is ClusterPush) && !(*cmd is ClusterPop) && !(*cmd
                is ClusterKeys) && !(*cmd is ClusterValues) && !(*cmd is ClusterEntries) && !(*cmd
                is ClusterDrop),
        ensures
            r@ == b@ + cmd_frame(*cmd),
    {
        match cmd {
            Cmd::Ping => b.add_ping(),
            Cmd::Pop => b.add_bulk("POP"),
            Cmd::Deque => b.add_bulk("DEQUE"),
            Cmd::Keys => b.add_bulk("KEYS"),
            Cmd::Values => b.add_bulk("VALUES"),
            Cmd::Entries => b.add_bulk("ENTRIES"),
            Cmd::SetKey(sc) => {
                let b2 = b.add_arr(3).add_bulk("SET").add_bulk(sc.key);
                let b3 = Self::add_value_frame(b2, &sc.value);
                proof {
                    lemma_enc_items3(
                        ValueModel::Bulk("SET".spec_bytes()),
                        ValueModel::Bulk(sc.key.spec_bytes()),
                        lexi_type_model(sc.value),
                    );
                    assert(b3@ =~= b@ + cmd_frame(*cmd));
                }
                b3
            },
            Cmd::Get(gc) => {
                let b2 = b.add_arr(2).add_bulk("GET").add_bulk(gc.key);
                proof {
                    lemma_enc_items2(
                        ValueModel::Bulk("GET".spec_bytes()),
                        ValueModel::Bulk(gc.key.spec_bytes()),
                    );
                    assert(b2@ =~= b@ + cmd_frame(*cmd));
                }
                b2
            },
            Cmd::Del(dc) => {
                let b2 = b.add_arr(2).add_bulk("DEL").add_bulk(dc.key);
                proof {
                    lemma_enc_items2(
                        ValueModel::Bulk("DEL".spec_bytes()),
                        ValueModel::Bulk(dc.key.spec_bytes()),
                    );
                    assert(b2@ =~= b@ + cmd_frame(*cmd));
                }
                b2
            },
            Cmd::Push(pc) => {
                let b2 = b.add_arr(2).add_bulk("PUSH");
                let b3 = Self::add_value_frame(b2, &pc.value);
                proof {
                    lemma_enc_items2(
                        ValueModel::Bulk("PUSH".spec_bytes()),
                        lexi_type_model(pc.value),
                    );
                    assert(b3@ =~= b@ + cmd_frame(*cmd));
                }
                b3
            },
            Cmd::Enque(ec) => {
                let b2 = b.add_arr(2).add_bulk("ENQUE");
                let b3 = Self::add_value_frame(b2, &ec.value);
                proof {
                    lemma_enc_items2(
                        ValueModel::Bulk("ENQUE".spec_bytes()),
                        lexi_type_model(ec.value),
                    );
                    assert(b3@ =~= b@ + cmd_frame(*cmd));
                }
                b3
            },
            _ => {
                proof {
                    assert(false);
                }
                b
            },
        }
    }

    /// Appends the frame of a cluster-scoped command.
    #[verifier::rlimit(100)]
    fn add_cluster_cmd_frame(b: Builder, cmd: &Cmd<'a>) -> (r: Builder)
        requires
            wf_cmd(*cmd),
            *cmd is ClusterNew || *cmd is ClusterSet || *cmd is ClusterGet || *cmd is ClusterDel
                || *cmd is ClusterPush || *cmd is ClusterPop || *cmd is ClusterKeys || *cmd
                is ClusterValues || *cmd is ClusterEntries || *cmd is ClusterDrop,
        ensures
            r@ == b@ + cmd_frame(*cmd),
    {
        match cmd {
            Cmd::ClusterNew(cc) => {
                let b2 = b.add_arr(2).add_bulk("CLUSTER.NEW").add_bulk(cc.name);
                proof {
                    lemma_enc_items2(
                        ValueModel::Bulk("CLUSTER.NEW".spec_bytes()),
                        ValueModel::Bulk(cc.name.spec_bytes()),
                    );
                    assert(b2@ =~= b@ + cmd_frame(*cmd));
                }
                b2
            },
            Cmd::ClusterSet(cc) => {
                let b2 = b.add_arr(4).add_bulk("CLUSTER.SET").add_bulk(cc.name).add_bulk(cc.key);
                let b3 = Self::add_value_frame(b2, &cc.value);
                proof {
                    lemma_enc_items4(
                        ValueModel::Bulk("CLUSTER.SET".spec_bytes()),
                        ValueModel::Bulk(cc.name.spec_bytes()),
                        ValueModel::Bulk(cc.key.spec_bytes()),
                        lexi_type_model(cc.value),
                    );
                    assert(b3@ =~= b@ + cmd_frame(*cmd));
                }
                b3
            },
            Cmd::ClusterGet(cc) => {
                let b2 = b.add_arr(3).add_bulk("CLUSTER.GET").add_bulk(cc.name).add_bulk(cc.key);
                proof {
                    lemma_enc_items3(
                        ValueModel::Bulk("CLUSTER.GET".spec_bytes()),
                        ValueModel::Bulk(cc.name.spec_bytes()),
                        ValueModel::Bulk(cc.key.spec_bytes()),
                    );
                    assert(b2@ =~= b@ + cmd_frame(*cmd));
                }
                b2
            },
            Cmd::ClusterDel(cc) => {
                let b2 = b.add_arr(3).add_bulk("CLUSTER.DEL").add_bulk(cc.name).add_bulk(cc.key);
                proof {
                    lemma_enc_items3(
                        ValueModel::Bulk("CLUSTER.DEL".spec_bytes()),
                        ValueModel::Bulk(cc.name.spec_bytes()),
                        ValueModel::Bulk(cc.key.spec_bytes()),
                    );
                    assert(b2@ =~= b@ + cmd_frame(*cmd));
                }
                b2
            },
            Cmd::ClusterPush(cc) => {
                let b2 = b.add_arr(3).add_bulk("CLUSTER.PUSh").add_bulk(cc.name);
                let b3 = Self::add_value_frame(b2, &cc.value);
                proof {
                    lemma_enc_items3(
                        ValueModel::Bulk("CLUSTER.PUSh".spec_bytes()),
                        ValueModel::Bulk(cc.name.spec_bytes()),
                        lexi_type_model(cc.value),
                    );
                    assert(b3@ =~= b@ + cmd_frame(*cmd));
                }
                b3
            },
            Cmd::ClusterPop(cc) => {
                let b2 = b.add_arr(2).add_bulk("CLUSTER.POP").add_bulk(cc.name);
                proof {
                    lemma_enc_items2(
                        ValueModel::Bulk("CLUSTER.POP".spec_bytes()),
                        ValueModel::Bulk(cc.name.spec_bytes()),
                    );
                    assert(b2@ =~= b@ + cmd_frame(*cmd));
                }
                b2
            },
            Cmd::ClusterKeys(cc) => {
                let b2 = b.add_arr(2).add_bulk("CLUSTER.KEYS").add_bulk(cc.name);
                proof {
                    lemma_enc_items2(
                        ValueModel::Bulk("CLUSTER.KEYS".spec_bytes()),
                        ValueModel::Bulk(cc.name.spec_bytes()),
                    );
                    assert(b2@ =~= b@ + cmd_frame(*cmd));
                }
                b2
            },
            Cmd::ClusterValues(cc) => {
                let b2 = b.add_arr(2).add_bulk("CLUSTER.VALUES").add_bulk(cc.name);
                proof {
                    lemma_enc_items2(
                        ValueModel::Bulk("CLUSTER.VALUES".spec_bytes()),
                        ValueModel::Bulk(cc.name.spec_bytes()),
                    );
                    assert(b2@ =~= b@ + cmd_frame(*cmd));
                }
                b2
            },
            Cmd::ClusterEntries(cc) => {
                let b2 = b.add_arr(2).add_bulk("CLUSTER.ENTRIES").add_bulk(cc.name);
                proof {
                    lemma_enc_items2(
                        ValueModel::Bulk("CLUSTER.ENTRIES".spec_bytes()),
                        ValueModel::Bulk(cc.name.spec_bytes()),
                    );
                    assert(b2@ =~= b@ + cmd_frame(*cmd));
                }
                b2
            },
            Cmd::ClusterDrop(cc) => {
                let b2 = b.add_arr(2).add_bulk("CLUSTER.DROP").add_bulk(cc.name);
                proof {
                    lemma_enc_items2(
                        ValueModel::Bulk("CLUSTER.DROP".spec_bytes()),
                        ValueModel::Bulk(cc.name.spec_bytes()),
                    );
                    assert(b2@ =~= b@ + cmd_frame(*cmd));
                }
                b2
            },
            _ => {
                proof {
                    assert(false);
                }
                b
            },
        }
    }

    /// Appends the frame of a command-carried bulk string or integer.
    fn add_value_frame(b: Builder, v: &LexiType) -> (r: Builder)
        requires
            *v is BulkString || *v is Int,
        ensures
            r@ == b@ + enc_value(lexi_type_model(*v)),
    {
        match v {
            LexiType::BulkString(s) => b.add_bulk(s.as_str()),
            LexiType::Int(i) => b.add_int(*i),
            _ => {
                proof {
                    assert(false);
                }
                b
            },
        }
    }

    /// Decodes the buffered responses to the queued commands: exactly one
    /// frame per command, in order, or the first error met.
    #[verifier::loop_isolation(false)]
    pub fn parse_responses(&self, input: &[u8]) -> (r: Result<Vec<LexiData>, DecodeError>)
        ensures
            ({
                let sp = spec_parse_items(input@, self.cmds_seq().len() as int);
                match r {
                    Ok(vs) => {
                        &&& vs@.len() == self.cmds_seq().len()
                        &&& sp matches Ok(p) && p.0 == models_of(vs@)
                    },
                    Err(e) => sp == Err::<(Seq<ValueModel>, int), DecodeError>(e),
                }
            }),
    {
        let n = self.cmds.len();
        let mut out: Vec<LexiData> = Vec::new();
        let mut cur: usize = 0;
        let mut cnt: usize = 0;
        proof {
            assert(input@.skip(0) =~= input@);
            assert(models_of(out@) =~= Seq::<ValueModel>::empty());
            match spec_parse_items(input@, n as int) {
                Ok((vs2, c2)) => {
                    assert(models_of(out@) + vs2 =~= vs2);
                },
                Err(_) => {},
            }
        }
        while cnt < n
            invariant
                cur <= input@.len(),
                cnt <= n,
                out@.len() == cnt as int,
                ({
                    let inner = spec_parse_items(input@.skip(cur as int), n as int - cnt as int);
                    let whole = spec_parse_items(input@, n as int);
                    match inner {
                        Ok((vs2, c2)) => whole == Ok::<(Seq<ValueModel>, int), DecodeError>(
                            (models_of(out@) + vs2, cur + c2),
                        ),
                        Err(e) => whole == Err::<(Seq<ValueModel>, int), DecodeError>(e),
                    }
                }),
            decreases n - cnt,
        {
            match parse_at(input, cur) {
                Err(e) => {
                    return Err(e);
                },
                Ok((v, np)) => {
                    let ghost prev = out@;
                    proof {
                        lemma_parse_consumed(input@.skip(cur as int));
                        assert(input@.skip(cur as int).skip((np - cur) as int) =~= input@.skip(
                            np as int,
                        ));
                    }
                    out.push(v);
                    cur = np;
                    cnt = cnt + 1;
                    proof {
                        lemma_models_of_push(prev, v);
                        assert(out@ == prev.push(v));
                        match spec_parse_items(input@.skip(np as int), n as int - cnt as int) {
                            Ok((vs3, c3)) => {
                                assert(models_of(prev) + (seq![v@] + vs3) =~= models_of(prev).push(
                                    v@,
                                ) + vs3);
                            },
                            Err(_) => {},
                        }
                    }
                },
            }
        }
        proof {
            assert(spec_parse_items(input@.skip(cur as int), 0) == Ok::<
                (Seq<ValueModel>, int),
                DecodeError,
            >((Seq::empty(), 0)));
            match spec_parse_items(input@, n as int) {
                Ok((vs2, c2)) => {
                    assert(models_of(out@) + Seq::<ValueModel>::empty() =~= models_of(out@));
                },
                Err(_) => {},
            }
        }
        Ok(out)
    }
}

} // verus!
