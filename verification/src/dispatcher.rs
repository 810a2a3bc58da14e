//! The dispatcher: the single sequential authority over stage registration and
//! stream lookup.
//!
//! It owns every channel, the registry of unclaimed consumer ends, and the
//! stage records. Registry mutations happen only inside `prepare_query_stage`
//! and `get_stream`, so they are linearized by construction; a stage executor
//! writes only through its private output indices and never touches the
//! registry again.

use vstd::prelude::*;
use vstd::string::StringExecFns;
use vstd::pervasive::VecAdditionalExecFns;
use crate::channel::{Channel, ChannelState};
use crate::error::{not_found_message, Error, ErrorKind};
use crate::keys::{render_spec, StreamKey};
use crate::scatter::{eval_scatter, part_spec, routing_of, scatter_partition, ScatterExpr};

verus! {

/// The mathematical form of a stream key: the views of its three fields.
pub type StreamKeyV = (Seq<char>, Seq<char>, Seq<char>);

/// An immutable prepare request: one stage, its ordered destination stream
/// names (order defines the partition index) and its scatter expression. The
/// plan fragment itself stays with the execution collaborator, which later
/// hands the produced row batches to [`FlightDispatcher::execute_batch`].
pub struct PrepareStageInfo {
    pub query_id: String,
    pub stage_id: String,
    pub destinations: Vec<String>,
    pub scatter: ScatterExpr,
}

impl PrepareStageInfo {
    pub fn create(
        query_id: String,
        stage_id: String,
        destinations: Vec<String>,
        scatter: ScatterExpr,
    ) -> (info: PrepareStageInfo)
        ensures
            info.query_id == query_id,
            info.stage_id == stage_id,
            info.destinations == destinations,
            info.scatter == scatter,
    {
        PrepareStageInfo { query_id, stage_id, destinations, scatter }
    }
}

pub enum StageState {
    Running,
    Completed,
    Failed,
}

/// The runtime instance of a prepared stage: it exclusively owns the producer
/// ends of its destination channels, as the channel indices in `outputs`.
pub struct Stage {
    pub query_id: String,
    pub stage_id: String,
    pub outputs: Vec<usize>,
    pub scatter: ScatterExpr,
    pub state: StageState,
}

/// An unclaimed consumer end, held until `get_stream` transfers it.
pub struct RegistryEntry {
    pub key: StreamKey,
    pub channel: usize,
}

/// A claimed consumer end: the channel index and the read cursor of the
/// pull-based reader.
pub struct StreamHandle {
    pub channel: usize,
    pub pos: usize,
}

pub struct FlightDispatcher {
    channels: Vec<Channel>,
    registry: Vec<RegistryEntry>,
    stages: Vec<Stage>,
}

/// Pairwise distinct destination names within one prepare request.
pub open spec fn dests_unique(dests: Seq<String>) -> bool {
    forall|a: int, b: int| 0 <= a < b < dests.len() ==> (#[trigger] dests[a])@ != (#[trigger] dests[b])@
}

/// A stage record is well formed against a channel table of length `nch`:
/// all output indices in range and pairwise distinct.
pub open spec fn stage_wf(s: Stage, nch: int) -> bool {
    &&& forall|j: int| 0 <= j < s.outputs@.len() ==> (#[trigger] s.outputs@[j]) < nch
    &&& forall|j1: int, j2: int|
        0 <= j1 < j2 < s.outputs@.len() ==> (#[trigger] s.outputs@[j1]) != (#[trigger] s.outputs@[j2])
}

impl FlightDispatcher {
    /// All channels ever created, indexed by channel id.
    pub closed spec fn channels_view(self) -> Seq<Channel> {
        self.channels@
    }

    /// The unclaimed consumer ends, in registration order.
    pub closed spec fn registry_view(self) -> Seq<RegistryEntry> {
        self.registry@
    }

    /// The stage records, in registration order.
    pub closed spec fn stages_view(self) -> Seq<Stage> {
        self.stages@
    }

    /// Whether the registry still holds an unclaimed entry for `k`.
    pub open spec fn registry_contains(self, k: StreamKeyV) -> bool {
        exists|i: int|
            0 <= i < self.registry_view().len() && (#[trigger] self.registry_view()[i]).key@ == k
    }

    /// Whether a stage with this key has been registered (live registration,
    /// whatever its execution state).
    pub open spec fn stage_registered(self, q: Seq<char>, s: Seq<char>) -> bool {
        exists|t: int|
            0 <= t < self.stages_view().len() && (#[trigger] self.stages_view()[t]).query_id@ == q
                && self.stages_view()[t].stage_id@ == s
    }

    /// The registry holds a key only while its stage is registered and the
    /// entry has not been claimed; keys are globally unique; every channel
    /// index is live.
    #[verifier::type_invariant]
    spec fn wf(self) -> bool {
        &&& forall|i: int|
            0 <= i < self.registry@.len() ==> (#[trigger] self.registry@[i]).channel
                < self.channels@.len()
        &&& forall|i: int, j: int|
            0 <= i < j < self.registry@.len() ==> (#[trigger] self.registry@[i]).key@ != (
            #[trigger] self.registry@[j]).key@
        &&& forall|i: int|
            0 <= i < self.registry@.len() ==> self.stage_registered(
                (#[trigger] self.registry@[i]).key.query_id@,
                self.registry@[i].key.stage_id@,
            )
        &&& forall|s: int, t: int|
            0 <= s < t < self.stages@.len() ==> !((#[trigger] self.stages@[s]).query_id@ == (
            #[trigger] self.stages@[t]).query_id@ && self.stages@[s].stage_id@
                == self.stages@[t].stage_id@)
        &&& forall|t: int|
            0 <= t < self.stages@.len() ==> stage_wf(
                #[trigger] self.stages@[t],
                self.channels@.len() as int,
            )
    }

    pub fn new() -> (d: FlightDispatcher)
        ensures
            d.channels_view() == Seq::<Channel>::empty(),
            d.registry_view() == Seq::<RegistryEntry>::empty(),
            d.stages_view() == Seq::<Stage>::empty(),
    {
        FlightDispatcher { channels: Vec::new(), registry: Vec::new(), stages: Vec::new() }
    }
}

/// A prepare request the dispatcher accepts: at least one destination, a stage
/// key not yet registered, and pairwise distinct destination names (stream
/// keys are globally unique).
pub open spec fn valid_prepare(pre: FlightDispatcher, info: PrepareStageInfo) -> bool {
    &&& info.destinations@.len() >= 1
    &&& !pre.stage_registered(info.query_id@, info.stage_id@)
    &&& dests_unique(info.destinations@)
}

/// The successful prepare transition: N fresh open empty channels are created,
/// one registry entry per destination is appended in order, and one Running
/// stage owning exactly the new channel indices is appended. Nothing else
/// changes.
pub open spec fn prepare_ok(
    pre: FlightDispatcher,
    post: FlightDispatcher,
    info: PrepareStageInfo,
) -> bool {
    let nch = pre.channels_view().len() as int;
    let nreg = pre.registry_view().len() as int;
    let n = info.destinations@.len() as int;
    &&& valid_prepare(pre, info)
    &&& post.channels_view().len() == nch + n
    &&& forall|c: int| 0 <= c < nch ==> (#[trigger] post.channels_view()[c]) == pre.channels_view()[c]
    &&& forall|j: int|
        0 <= j < n ==> (#[trigger] post.channels_view()[nch + j]).content() == Seq::<Seq<u64>>::empty()
            && post.channels_view()[nch + j].is_open()
    &&& post.stages_view().len() == pre.stages_view().len() + 1
    &&& forall|t: int|
        0 <= t < pre.stages_view().len() ==> (#[trigger] post.stages_view()[t])
            == pre.stages_view()[t]
    &&& {
        let st = post.stages_view().last();
        &&& st.query_id@ == info.query_id@
        &&& st.stage_id@ == info.stage_id@
        &&& st.scatter == info.scatter
        &&& st.state is Running
        &&& st.outputs@.len() == n
        &&& forall|j: int| 0 <= j < n ==> (#[trigger] st.outputs@[j]) == nch + j
    }
    &&& post.registry_view().len() == nreg + n
    &&& forall|i: int|
        0 <= i < nreg ==> (#[trigger] post.registry_view()[i]) == pre.registry_view()[i]
    &&& forall|j: int|
        0 <= j < n ==> (#[trigger] post.registry_view()[nreg + j]).key@ == (
        info.query_id@,
        info.stage_id@,
        info.destinations@[j]@,
        ) && post.registry_view()[nreg + j].channel == nch + j
}

/// The successful claim transition of `get_stream`: the unique entry for `k`
/// leaves the registry, its channel index is handed over with a fresh read
/// cursor, and channels and stages are untouched.
pub open spec fn claim_ok(
    pre: FlightDispatcher,
    post: FlightDispatcher,
    k: StreamKeyV,
    h: StreamHandle,
) -> bool {
    &&& pre.registry_contains(k)
    &&& exists|i: int|
        0 <= i < pre.registry_view().len() && (#[trigger] pre.registry_view()[i]).key@ == k
            && h.channel == pre.registry_view()[i].channel && post.registry_view()
            == pre.registry_view().remove(i)
    &&& h.pos == 0
    &&& h.channel < pre.channels_view().len()
    &&& post.channels_view() == pre.channels_view()
    &&& post.stages_view() == pre.stages_view()
    &&& !post.registry_contains(k)
}

impl FlightDispatcher {
    /// Register a stage: validate, create one channel per destination, record
    /// the registry entries and the stage, and acknowledge. Execution is
    /// driven separately against the stage's private output indices.
    pub fn prepare_query_stage(&mut self, info: PrepareStageInfo) -> (r: Result<(), Error>)
        ensures
            match r {
                Result::Ok(_) => prepare_ok(*old(self), *final(self), info),
                Result::Err(e) => {
                    &&& *final(self) == *old(self)
                    &&& e.kind == ErrorKind::Validation
                    &&& !valid_prepare(*old(self), info)
                },
            },
    {
        proof {
            use_type_invariant(&*self);
        }
        if info.destinations.len() == 0 {
            return Result::Err(
                Error::validation(
                    String::from_str("Prepare stage requires at least one destination stream"),
                ),
            );
        }
        let mut t: usize = 0;
        while t < self.stages.len()
            invariant
                t <= self.stages@.len(),
                forall|u: int|
                    0 <= u < t ==> !((#[trigger] self.stages@[u]).query_id@ == info.query_id@
                        && self.stages@[u].stage_id@ == info.stage_id@),
            decreases self.stages@.len() - t,
        {
            if self.stages[t].query_id == info.query_id && self.stages[t].stage_id == info.stage_id {
                return Result::Err(
                    Error::validation(String::from_str("Stage is already registered")),
                );
            }
            t = t + 1;
        }
        let ndest = info.destinations.len();
        let mut a: usize = 0;
        while a < ndest
            invariant
                a <= ndest,
                ndest == info.destinations@.len(),
                forall|x: int, y: int|
                    0 <= x < a && x < y < ndest ==> (#[trigger] info.destinations@[x])@ != (
                    #[trigger] info.destinations@[y])@,
            decreases ndest - a,
        {
            let mut b: usize = a + 1;
            while b < ndest
                invariant
                    a < b <= ndest,
                    ndest == info.destinations@.len(),
                    forall|y: int|
                        a < y < b ==> (#[trigger] info.destinations@[y])@
                            != info.destinations@[a as int]@,
                decreases ndest - b,
            {
                if info.destinations[a] == info.destinations[b] {
                    return Result::Err(
                        Error::validation(
                            String::from_str("Duplicate destination stream names in one stage"),
                        ),
                    );
                }
                b = b + 1;
            }
            a = a + 1;
        }
        let ghost pre = *self;
        let mut tmp = FlightDispatcher {
            channels: Vec::new(),
            registry: Vec::new(),
            stages: Vec::new(),
        };
        core::mem::swap(&mut tmp, self);
        let FlightDispatcher { mut channels, mut registry, mut stages } = tmp;
        let base = channels.len();
        let mut outputs: Vec<usize> = Vec::new();
        let mut j: usize = 0;
        while j < ndest
            invariant
                j <= ndest,
                ndest == info.destinations@.len(),
                channels@.len() == pre.channels_view().len() + j,
                registry@.len() == pre.registry_view().len() + j,
                outputs@.len() == j,
                stages@ == pre.stages_view(),
                base == pre.channels_view().len(),
                forall|c: int|
                    0 <= c < base ==> (#[trigger] channels@[c]) == pre.channels_view()[c],
                forall|u: int|
                    0 <= u < j ==> (#[trigger] channels@[base + u]).content() == Seq::<
                        Seq<u64>,
                    >::empty() && channels@[base + u].is_open(),
                forall|i: int|
                    0 <= i < pre.registry_view().len() ==> (#[trigger] registry@[i])
                        == pre.registry_view()[i],
                forall|u: int|
                    0 <= u < j ==> (#[trigger] registry@[pre.registry_view().len() + u]).key@ == (
                    info.query_id@,
                    info.stage_id@,
                    info.destinations@[u]@,
                    ) && registry@[pre.registry_view().len() + u].channel == base + u,
                forall|u: int| 0 <= u < j ==> (#[trigger] outputs@[u]) == base + u,
            decreases ndest - j,
        {
            let id = channels.len();
            channels.push(Channel::new());
            let key = StreamKey::create(
                info.query_id.clone(),
                info.stage_id.clone(),
                info.destinations[j].clone(),
            );
            registry.push(RegistryEntry { key, channel: id });
            outputs.push(id);
            j = j + 1;
        }
        let stage = Stage {
            query_id: info.query_id,
            stage_id: info.stage_id,
            outputs,
            scatter: info.scatter,
            state: StageState::Running,
        };
        stages.push(stage);
        proof {
            let post_g = FlightDispatcher { channels, registry, stages };
            assert(post_g.stages_view().last().outputs@.len() == ndest);
            assert(prepare_ok(pre, post_g, info));
            lemma_prepare_preserves_wf(pre, post_g, info);
        }
        let post = FlightDispatcher { channels, registry, stages };
        *self = post;
        Result::Ok(())
    }

    /// Look a stream key up and transfer its consumer end. The entry is
    /// removed atomically: a key is handed over at most once, and an unknown
    /// or already-claimed key fails with the fixed not-found message.
    pub fn get_stream(&mut self, key: &StreamKey) -> (r: Result<StreamHandle, Error>)
        ensures
            match r {
                Result::Ok(h) => claim_ok(*old(self), *final(self), key@, h),
                Result::Err(e) => {
                    &&& *final(self) == *old(self)
                    &&& !old(self).registry_contains(key@)
                    &&& e.kind == ErrorKind::NotFound
                    &&& e.message@ == not_found_message(render_spec(key@))
                },
            },
    {
        proof {
            use_type_invariant(&*self);
        }
        let n = self.registry.len();
        let mut i: usize = 0;
        let mut idx: usize = n;
        while i < n
            invariant
                i <= n,
                idx <= n,
                n == self.registry@.len(),
                idx == n ==> forall|t: int| 0 <= t < i ==> (#[trigger] self.registry@[t]).key@ != key@,
                idx < n ==> self.registry@[idx as int].key@ == key@,
            decreases n - i,
        {
            if idx == n && self.registry[i].key.equals(key) {
                idx = i;
            }
            i = i + 1;
        }
        if idx == n {
            assert(!self.registry_contains(key@));
            return Result::Err(Error::not_found_stream(key));
        }
        let ghost pre = *self;
        let mut tmp = FlightDispatcher {
            channels: Vec::new(),
            registry: Vec::new(),
            stages: Vec::new(),
        };
        core::mem::swap(&mut tmp, self);
        let FlightDispatcher { channels, mut registry, stages } = tmp;
        let entry = registry.remove(idx);
        let h = StreamHandle { channel: entry.channel, pos: 0 };
        let post = FlightDispatcher { channels, registry, stages };
        proof {
            pre.registry_view().remove_ensures(idx as int);
            assert forall|t: int| 0 <= t < post.registry_view().len() implies (
            #[trigger] post.registry_view()[t]).key@ != key@ by {
                if t < idx {
                    assert(post.registry_view()[t] == pre.registry_view()[t]);
                } else {
                    assert(post.registry_view()[t] == pre.registry_view()[t + 1]);
                }
            }
            assert(!post.registry_contains(key@));
            lemma_claim_preserves_wf(pre, post, idx as int);
            assert(claim_ok(pre, post, key@, h));
        }
        *self = post;
        Result::Ok(h)
    }
}

/// Removing one registry entry preserves the dispatcher invariant.
proof fn lemma_claim_preserves_wf(pre: FlightDispatcher, post: FlightDispatcher, idx: int)
    requires
        pre.wf(),
        0 <= idx < pre.registry_view().len(),
        post.registry_view() == pre.registry_view().remove(idx),
        post.channels_view() == pre.channels_view(),
        post.stages_view() == pre.stages_view(),
    ensures
        post.wf(),
{
    pre.registry_view().remove_ensures(idx);
    let spec_of = |t: int| if t < idx { t } else { t + 1 };
    assert forall|t: int| 0 <= t < post.registry_view().len() implies (
    #[trigger] post.registry_view()[t]) == pre.registry_view()[spec_of(t)] by {}
    assert forall|i: int, j: int| 0 <= i < j < post.registry_view().len() implies (
    #[trigger] post.registry_view()[i]).key@ != (#[trigger] post.registry_view()[j]).key@ by {
        assert(post.registry_view()[i] == pre.registry_view()[spec_of(i)]);
        assert(post.registry_view()[j] == pre.registry_view()[spec_of(j)]);
    }
    assert forall|i: int| 0 <= i < post.registry_view().len() implies post.stage_registered(
        (#[trigger] post.registry_view()[i]).key.query_id@,
        post.registry_view()[i].key.stage_id@,
    ) by {
        assert(post.registry_view()[i] == pre.registry_view()[spec_of(i)]);
        let q = pre.registry_view()[spec_of(i)].key.query_id@;
        let s = pre.registry_view()[spec_of(i)].key.stage_id@;
        assert(pre.stage_registered(q, s));
        let t = choose|t: int|
            0 <= t < pre.stages_view().len() && (#[trigger] pre.stages_view()[t]).query_id@ == q
                && pre.stages_view()[t].stage_id@ == s;
        assert(post.stages_view()[t] == pre.stages_view()[t]);
    }
}

/// The successful prepare transition preserves the dispatcher invariant.
proof fn lemma_prepare_preserves_wf(
    pre: FlightDispatcher,
    post: FlightDispatcher,
    info: PrepareStageInfo,
)
    requires
        pre.wf(),
        prepare_ok(pre, post, info),
    ensures
        post.wf(),
{
    let nch = pre.channels_view().len() as int;
    let nreg = pre.registry_view().len() as int;
    let nst = pre.stages_view().len() as int;
    let n = info.destinations@.len() as int;
    // registry channel bounds
    assert forall|i: int| 0 <= i < post.registry_view().len() implies (
    #[trigger] post.registry_view()[i]).channel < post.channels_view().len() by {
        if i < nreg {
            assert(post.registry_view()[i] == pre.registry_view()[i]);
        } else {
            let j = i - nreg;
            assert(post.registry_view()[nreg + j].channel == nch + j);
        }
    }
    // key uniqueness
    assert forall|i: int, j: int| 0 <= i < j < post.registry_view().len() implies (
    #[trigger] post.registry_view()[i]).key@ != (#[trigger] post.registry_view()[j]).key@ by {
        if j < nreg {
            assert(post.registry_view()[i] == pre.registry_view()[i]);
            assert(post.registry_view()[j] == pre.registry_view()[j]);
        } else if i < nreg {
            assert(post.registry_view()[i] == pre.registry_view()[i]);
            let jj = j - nreg;
            assert(post.registry_view()[nreg + jj].key@ == (
                info.query_id@,
                info.stage_id@,
                info.destinations@[jj]@,
            ));
            let q = pre.registry_view()[i].key.query_id@;
            let s = pre.registry_view()[i].key.stage_id@;
            assert(pre.stage_registered(q, s));
            if q == info.query_id@ && s == info.stage_id@ {
                let t = choose|t: int|
                    0 <= t < pre.stages_view().len() && (#[trigger] pre.stages_view()[t]).query_id@
                        == q && pre.stages_view()[t].stage_id@ == s;
                assert(pre.stage_registered(info.query_id@, info.stage_id@));
                assert(false);
            }
        } else {
            let ji = i - nreg;
            let jj = j - nreg;
            assert(post.registry_view()[nreg + ji].key@ == (
                info.query_id@,
                info.stage_id@,
                info.destinations@[ji]@,
            ));
            assert(post.registry_view()[nreg + jj].key@ == (
                info.query_id@,
                info.stage_id@,
                info.destinations@[jj]@,
            ));
            assert(info.destinations@[ji]@ != info.destinations@[jj]@);
        }
    }
    // registry-stage linking
    assert forall|i: int| 0 <= i < post.registry_view().len() implies post.stage_registered(
        (#[trigger] post.registry_view()[i]).key.query_id@,
        post.registry_view()[i].key.stage_id@,
    ) by {
        if i < nreg {
            assert(post.registry_view()[i] == pre.registry_view()[i]);
            let q = pre.registry_view()[i].key.query_id@;
            let s = pre.registry_view()[i].key.stage_id@;
            assert(pre.stage_registered(q, s));
            let t = choose|t: int|
                0 <= t < pre.stages_view().len() && (#[trigger] pre.stages_view()[t]).query_id@
                    == q && pre.stages_view()[t].stage_id@ == s;
            assert(post.stages_view()[t] == pre.stages_view()[t]);
        } else {
            let j = i - nreg;
            assert(post.registry_view()[nreg + j].key@ == (
                info.query_id@,
                info.stage_id@,
                info.destinations@[j]@,
            ));
            assert(post.stages_view()[nst] == post.stages_view().last());
            assert(post.stages_view()[nst].query_id@ == info.query_id@);
        }
    }
    // stage key uniqueness
    assert forall|s: int, t: int| 0 <= s < t < post.stages_view().len() implies !((
    #[trigger] post.stages_view()[s]).query_id@ == (#[trigger] post.stages_view()[t]).query_id@
        && post.stages_view()[s].stage_id@ == post.stages_view()[t].stage_id@) by {
        if t < nst {
            assert(post.stages_view()[s] == pre.stages_view()[s]);
            assert(post.stages_view()[t] == pre.stages_view()[t]);
        } else {
            assert(post.stages_view()[s] == pre.stages_view()[s]);
            assert(post.stages_view()[t] == post.stages_view().last());
            if pre.stages_view()[s].query_id@ == info.query_id@ && pre.stages_view()[s].stage_id@
                == info.stage_id@ {
                assert(pre.stage_registered(info.query_id@, info.stage_id@));
                assert(false);
            }
        }
    }
    // stage well-formedness
    assert forall|t: int| 0 <= t < post.stages_view().len() implies stage_wf(
        #[trigger] post.stages_view()[t],
        post.channels_view().len() as int,
    ) by {
        if t < nst {
            assert(post.stages_view()[t] == pre.stages_view()[t]);
            assert(stage_wf(pre.stages_view()[t], nch));
        } else {
            let st = post.stages_view().last();
            assert(post.stages_view()[t] == st);
            assert forall|j: int| 0 <= j < st.outputs@.len() implies (#[trigger] st.outputs@[j])
                < post.channels_view().len() by {
                assert(st.outputs@[j] == nch + j);
            }
            assert forall|j1: int, j2: int| 0 <= j1 < j2 < st.outputs@.len() implies (
            #[trigger] st.outputs@[j1]) != (#[trigger] st.outputs@[j2]) by {
                assert(st.outputs@[j1] == nch + j1);
                assert(st.outputs@[j2] == nch + j2);
            }
        }
    }
}

/// One batch was emitted to a channel: the content grew by exactly that batch
/// and the channel state did not change.
pub open spec fn batch_pushed(pre: Channel, post: Channel, batch: Seq<u64>) -> bool {
    &&& post.content() == pre.content().push(batch)
    &&& post.state == pre.state
}

/// Emit a batch into channel `i` of a channel table.
fn channel_push(channels: &mut Vec<Channel>, i: usize, batch: Vec<u64>)
    requires
        i < old(channels)@.len(),
        old(channels)@[i as int].is_open(),
    ensures
        final(channels)@.len() == old(channels)@.len(),
        batch_pushed(old(channels)@[i as int], final(channels)@[i as int], batch@),
        forall|c: int|
            0 <= c < old(channels)@.len() && c != i ==> final(channels)@[c] == old(channels)@[c],
{
    let mut ch = Channel::new();
    channels.set_and_swap(i, &mut ch);
    ch.push(batch);
    channels.set_and_swap(i, &mut ch);
}

/// Close channel `i` of a channel table in success state.
fn channel_close_ok(channels: &mut Vec<Channel>, i: usize)
    requires
        i < old(channels)@.len(),
        old(channels)@[i as int].is_open(),
    ensures
        final(channels)@.len() == old(channels)@.len(),
        final(channels)@[i as int].content() == old(channels)@[i as int].content(),
        final(channels)@[i as int].state == ChannelState::ClosedOk,
        forall|c: int|
            0 <= c < old(channels)@.len() && c != i ==> final(channels)@[c] == old(channels)@[c],
{
    let mut ch = Channel::new();
    channels.set_and_swap(i, &mut ch);
    ch.close_ok();
    channels.set_and_swap(i, &mut ch);
}

/// Close channel `i` of a channel table in error state, carrying `cause`.
fn channel_close_err(channels: &mut Vec<Channel>, i: usize, cause: Error)
    requires
        i < old(channels)@.len(),
        old(channels)@[i as int].is_open(),
    ensures
        final(channels)@.len() == old(channels)@.len(),
        final(channels)@[i as int].content() == old(channels)@[i as int].content(),
        final(channels)@[i as int].state == ChannelState::ClosedErr(cause),
        forall|c: int|
            0 <= c < old(channels)@.len() && c != i ==> final(channels)@[c] == old(channels)@[c],
{
    let mut ch = Channel::new();
    channels.set_and_swap(i, &mut ch);
    ch.close_err(cause);
    channels.set_and_swap(i, &mut ch);
}

impl FlightDispatcher {
    /// All output channels of a stage are still open.
    pub open spec fn stage_outputs_open(self, stage: int) -> bool {
        let st = self.stages_view()[stage];
        forall|j: int|
            0 <= j < st.outputs@.len() ==> self.channels_view()[(#[trigger] st.outputs@[j]) as int].is_open()
    }

    /// Run one source batch through a stage: with a single destination the
    /// batch is forwarded verbatim; with several, the scatter expression is
    /// evaluated per row, rows are grouped by routing value modulo the
    /// destination count in source order, and each non-empty group is emitted
    /// to its destination. The registry and the stage records are untouched.
    pub fn execute_batch(&mut self, stage: usize, rows: Vec<u64>)
        requires
            stage < old(self).stages_view().len(),
            old(self).stages_view()[stage as int].state is Running,
            old(self).stage_outputs_open(stage as int),
        ensures
            exec_batch_ok(*old(self), *final(self), stage as int, rows@),
    {
        proof {
            use_type_invariant(&*self);
        }
        let ghost pre = *self;
        let mut tmp = FlightDispatcher {
            channels: Vec::new(),
            registry: Vec::new(),
            stages: Vec::new(),
        };
        core::mem::swap(&mut tmp, self);
        let FlightDispatcher { mut channels, registry, stages } = tmp;
        let n = stages[stage].outputs.len();
        proof {
            assert(stage_wf(pre.stages_view()[stage as int], pre.channels_view().len() as int));
        }
        if n == 1 {
            let c = stages[stage].outputs[0];
            channel_push(&mut channels, c, rows);
        } else if n > 1 {
            let ghost st = pre.stages_view()[stage as int];
            let routing = eval_scatter(&stages[stage].scatter, &rows);
            let mut parts = scatter_partition(&rows, &routing, n);
            let ghost allparts = parts@;
            let mut j: usize = 0;
            while j < n
                invariant
                    j <= n,
                    n == st.outputs@.len(),
                    stages@ == pre.stages_view(),
                    st == pre.stages_view()[stage as int],
                    stage < pre.stages_view().len(),
                    stage_wf(st, pre.channels_view().len() as int),
                    pre.stage_outputs_open(stage as int),
                    channels@.len() == pre.channels_view().len(),
                    parts@.len() == n - j,
                    forall|t: int| 0 <= t < n - j ==> parts@[t] == allparts[j + t],
                    allparts.len() == n,
                    forall|t: int|
                        0 <= t < n ==> (#[trigger] allparts[t])@ == part_spec(
                            rows@,
                            routing@,
                            n as int,
                            t,
                        ),
                    routing@ == routing_of(st.scatter, rows@),
                    forall|t: int|
                        0 <= t < j ==> {
                            let c = (#[trigger] st.outputs@[t]) as int;
                            let part = part_spec(rows@, routing@, n as int, t);
                            if part.len() > 0 {
                                batch_pushed(pre.channels_view()[c], channels@[c], part)
                            } else {
                                channels@[c] == pre.channels_view()[c]
                            }
                        },
                    forall|c: int|
                        0 <= c < channels@.len() && (forall|t: int|
                            0 <= t < j ==> (#[trigger] st.outputs@[t]) != c) ==> channels@[c]
                            == pre.channels_view()[c],
                decreases n - j,
            {
                let group = parts.remove(0);
                proof {
                    assert(group == allparts[j as int]);
                    assert(group@ == part_spec(rows@, routing@, n as int, j as int));
                    assert forall|t: int| 0 <= t < n - j - 1 implies parts@[t] == allparts[j + 1
                        + t] by {}
                }
                if group.len() > 0 {
                    let c = stages[stage].outputs[j];
                    proof {
                        assert(forall|t: int|
                            0 <= t < j ==> (#[trigger] st.outputs@[t]) != st.outputs@[j as int]);
                        assert(channels@[c as int] == pre.channels_view()[c as int]);
                    }
                    channel_push(&mut channels, c, group);
                }
                j = j + 1;
            }
        }
        proof {
            let post_g = FlightDispatcher { channels, registry, stages };
            lemma_same_shape_preserves_wf(pre, post_g);
        }
        let post = FlightDispatcher { channels, registry, stages };
        *self = post;
    }
}

/// The executor transition for one batch on one stage: the registry and the
/// stage records are untouched and the channel count is unchanged; with one
/// destination the batch is forwarded verbatim, with several each non-empty
/// partition is emitted to its destination; every channel outside the stage's
/// outputs is unchanged.
pub open spec fn exec_batch_ok(
    pre: FlightDispatcher,
    post: FlightDispatcher,
    stage: int,
    rows: Seq<u64>,
) -> bool {
    &&& 0 <= stage < pre.stages_view().len()
    &&& post.registry_view() == pre.registry_view()
    &&& post.stages_view() == pre.stages_view()
    &&& post.channels_view().len() == pre.channels_view().len()
    &&& ({
        let st = pre.stages_view()[stage];
        let n = st.outputs@.len() as int;
        let routing = routing_of(st.scatter, rows);
        &&& (n == 1 ==> batch_pushed(
            pre.channels_view()[st.outputs@[0] as int],
            post.channels_view()[st.outputs@[0] as int],
            rows,
        ))
        &&& (n > 1 ==> forall|j: int|
            0 <= j < n ==> {
                let c = (#[trigger] st.outputs@[j]) as int;
                let part = part_spec(rows, routing, n, j);
                if part.len() > 0 {
                    batch_pushed(pre.channels_view()[c], post.channels_view()[c], part)
                } else {
                    post.channels_view()[c] == pre.channels_view()[c]
                }
            })
        &&& forall|c: int|
            0 <= c < pre.channels_view().len() && !st.outputs@.contains(c as usize)
                ==> post.channels_view()[c] == pre.channels_view()[c]
    })
}

/// A run of the executor: consecutive states joined by one batch transition
/// each, all on the same stage.
pub open spec fn exec_trace_ok(
    states: Seq<FlightDispatcher>,
    stage: int,
    batches: Seq<Seq<u64>>,
) -> bool {
    &&& states.len() == batches.len() + 1
    &&& forall|t: int|
        0 <= t < batches.len() ==> exec_batch_ok(states[t], states[t + 1], stage, #[trigger] batches[t])
}

/// Identity passthrough: on a stage with a single destination, any run of the
/// executor emits exactly the source batches, in source order, into the one
/// destination stream — whatever the scatter expression routes.
pub proof fn lemma_single_destination_passthrough(
    states: Seq<FlightDispatcher>,
    stage: int,
    batches: Seq<Seq<u64>>,
)
    requires
        exec_trace_ok(states, stage, batches),
        0 <= stage < states[0].stages_view().len(),
        states[0].stages_view()[stage].outputs@.len() == 1,
    ensures
        states.last().stages_view() == states[0].stages_view(),
        ({
            let c = states[0].stages_view()[stage].outputs@[0] as int;
            states.last().channels_view()[c].content() == states[0].channels_view()[c].content()
                + batches
        }),
    decreases batches.len(),
{
    let c = states[0].stages_view()[stage].outputs@[0] as int;
    if batches.len() == 0 {
        assert(states.last() == states[0]);
        assert(states[0].channels_view()[c].content() + batches =~= states[0].channels_view()[c].content());
    } else {
        let k = batches.len() as int;
        let init = states.drop_last();
        let front = batches.drop_last();
        assert forall|t: int| 0 <= t < front.len() implies exec_batch_ok(
            init[t],
            init[t + 1],
            stage,
            #[trigger] front[t],
        ) by {
            assert(front[t] == batches[t]);
            assert(init[t] == states[t] && init[t + 1] == states[t + 1]);
        }
        lemma_single_destination_passthrough(init, stage, front);
        assert(exec_batch_ok(states[k - 1], states[k], stage, batches[k - 1]));
        assert(states[k - 1].stages_view() == states[0].stages_view());
        assert(batch_pushed(
            states[k - 1].channels_view()[c],
            states[k].channels_view()[c],
            batches[k - 1],
        ));
        assert(states.last().channels_view()[c].content() =~= states[0].channels_view()[c].content()
            + batches);
    }
}

/// The batches destination `j` receives from a run of source batches under a
/// scatter expression: one entry per source batch whose partition for `j` is
/// non-empty, in source order.
pub open spec fn dest_trace_content(
    batches: Seq<Seq<u64>>,
    scatter: ScatterExpr,
    n: int,
    j: int,
) -> Seq<Seq<u64>>
    decreases batches.len(),
{
    if batches.len() == 0 {
        Seq::empty()
    } else {
        let rest = dest_trace_content(batches.drop_last(), scatter, n, j);
        let part = part_spec(batches.last(), routing_of(scatter, batches.last()), n, j);
        if part.len() > 0 {
            rest.push(part)
        } else {
            rest
        }
    }
}

/// Stable partition, end to end: on a stage with several destinations, any
/// run of the executor leaves each destination stream holding exactly the
/// non-empty partitions of the source batches for that destination — rows
/// routed by value modulo the destination count, in source order, with no
/// zero-row noise.
pub proof fn lemma_scatter_trace(
    states: Seq<FlightDispatcher>,
    stage: int,
    batches: Seq<Seq<u64>>,
)
    requires
        exec_trace_ok(states, stage, batches),
        0 <= stage < states[0].stages_view().len(),
        states[0].stages_view()[stage].outputs@.len() > 1,
    ensures
        states.last().stages_view() == states[0].stages_view(),
        ({
            let st = states[0].stages_view()[stage];
            let n = st.outputs@.len() as int;
            forall|j: int|
                0 <= j < n ==> {
                    let c = (#[trigger] st.outputs@[j]) as int;
                    states.last().channels_view()[c].content()
                        == states[0].channels_view()[c].content() + dest_trace_content(
                        batches,
                        st.scatter,
                        n,
                        j,
                    )
                }
        }),
    decreases batches.len(),
{
    let st = states[0].stages_view()[stage];
    let n = st.outputs@.len() as int;
    if batches.len() == 0 {
        assert(states.last() == states[0]);
        assert forall|j: int| 0 <= j < n implies {
            let c = (#[trigger] st.outputs@[j]) as int;
            states.last().channels_view()[c].content() == states[0].channels_view()[c].content()
                + dest_trace_content(batches, st.scatter, n, j)
        } by {
            let c = st.outputs@[j] as int;
            assert(states[0].channels_view()[c].content() + dest_trace_content(
                batches,
                st.scatter,
                n,
                j,
            ) =~= states[0].channels_view()[c].content());
        }
    } else {
        let k = batches.len() as int;
        let init = states.drop_last();
        let front = batches.drop_last();
        assert forall|t: int| 0 <= t < front.len() implies exec_batch_ok(
            init[t],
            init[t + 1],
            stage,
            #[trigger] front[t],
        ) by {
            assert(front[t] == batches[t]);
            assert(init[t] == states[t] && init[t + 1] == states[t + 1]);
        }
        lemma_scatter_trace(init, stage, front);
        assert(exec_batch_ok(states[k - 1], states[k], stage, batches[k - 1]));
        assert(states[k - 1].stages_view() == states[0].stages_view());
        let last_batch = batches[k - 1];
        let routing = routing_of(st.scatter, last_batch);
        assert forall|j: int| 0 <= j < n implies {
            let c = (#[trigger] st.outputs@[j]) as int;
            states.last().channels_view()[c].content() == states[0].channels_view()[c].content()
                + dest_trace_content(batches, st.scatter, n, j)
        } by {
            let c = st.outputs@[j] as int;
            let part = part_spec(last_batch, routing, n, j);
            let rest = dest_trace_content(front, st.scatter, n, j);
            assert(init.last().channels_view()[c].content() == states[0].channels_view()[c].content()
                + rest);
            assert(batches.last() == last_batch);
            if part.len() > 0 {
                assert(batch_pushed(
                    states[k - 1].channels_view()[c],
                    states[k].channels_view()[c],
                    part,
                ));
                assert(states.last().channels_view()[c].content() =~= states[0].channels_view()[c].content()
                    + rest.push(part));
            } else {
                assert(states[k].channels_view()[c] == states[k - 1].channels_view()[c]);
            }
        }
    }
}

/// The invariant depends only on the shape of the state (lengths, keys,
/// indices), not on channel contents or stage progress: any transition that
/// keeps the registry, the stage keys and outputs, and the channel count
/// preserves it.
proof fn lemma_same_shape_preserves_wf(pre: FlightDispatcher, post: FlightDispatcher)
    requires
        pre.wf(),
        post.registry_view() == pre.registry_view(),
        post.channels_view().len() == pre.channels_view().len(),
        post.stages_view().len() == pre.stages_view().len(),
        forall|t: int|
            0 <= t < pre.stages_view().len() ==> (#[trigger] post.stages_view()[t]).query_id@
                == pre.stages_view()[t].query_id@ && post.stages_view()[t].stage_id@
                == pre.stages_view()[t].stage_id@ && post.stages_view()[t].outputs
                == pre.stages_view()[t].outputs,
    ensures
        post.wf(),
{
    assert forall|i: int| 0 <= i < post.registry@.len() implies post.stage_registered(
        (#[trigger] post.registry@[i]).key.query_id@,
        post.registry@[i].key.stage_id@,
    ) by {
        let q = pre.registry_view()[i].key.query_id@;
        let s = pre.registry_view()[i].key.stage_id@;
        assert(pre.stage_registered(q, s));
        let t = choose|t: int|
            0 <= t < pre.stages_view().len() && (#[trigger] pre.stages_view()[t]).query_id@ == q
                && pre.stages_view()[t].stage_id@ == s;
        assert(post.stages_view()[t].query_id@ == q && post.stages_view()[t].stage_id@ == s);
    }
    assert forall|t: int| 0 <= t < post.stages@.len() implies stage_wf(
        #[trigger] post.stages@[t],
        post.channels@.len() as int,
    ) by {
        assert(stage_wf(pre.stages_view()[t], pre.channels_view().len() as int));
        assert(post.stages_view()[t].outputs == pre.stages_view()[t].outputs);
    }
}

impl FlightDispatcher {
    /// End a stage after its source was exhausted without error: every
    /// destination channel is closed in success state — closure is the only
    /// end-of-stream signal — and the stage completes.
    pub fn finish_stage(&mut self, stage: usize)
        requires
            stage < old(self).stages_view().len(),
            old(self).stages_view()[stage as int].state is Running,
            old(self).stage_outputs_open(stage as int),
        ensures
            final(self).registry_view() == old(self).registry_view(),
            final(self).channels_view().len() == old(self).channels_view().len(),
            final(self).stages_view().len() == old(self).stages_view().len(),
            forall|t: int|
                0 <= t < old(self).stages_view().len() && t != stage ==> (
                #[trigger] final(self).stages_view()[t]) == old(self).stages_view()[t],
            stage_progressed(
                old(self).stages_view()[stage as int],
                final(self).stages_view()[stage as int],
                StageState::Completed,
            ),
            ({
                let st = old(self).stages_view()[stage as int];
                &&& forall|j: int|
                    0 <= j < st.outputs@.len() ==> {
                        let c = (#[trigger] st.outputs@[j]) as int;
                        &&& final(self).channels_view()[c].state == ChannelState::ClosedOk
                        &&& final(self).channels_view()[c].content() == old(
                            self,
                        ).channels_view()[c].content()
                    }
                &&& forall|c: int|
                    0 <= c < old(self).channels_view().len() && !st.outputs@.contains(c as usize)
                        ==> final(self).channels_view()[c] == old(self).channels_view()[c]
            }),
    {
        proof {
            use_type_invariant(&*self);
        }
        let ghost pre = *self;
        let mut tmp = FlightDispatcher {
            channels: Vec::new(),
            registry: Vec::new(),
            stages: Vec::new(),
        };
        core::mem::swap(&mut tmp, self);
        let FlightDispatcher { mut channels, registry, mut stages } = tmp;
        let n = stages[stage].outputs.len();
        proof {
            assert(stage_wf(pre.stages_view()[stage as int], pre.channels_view().len() as int));
        }
        let ghost st = pre.stages_view()[stage as int];
        let mut j: usize = 0;
        while j < n
            invariant
                j <= n,
                n == st.outputs@.len(),
                stages@ == pre.stages_view(),
                st == pre.stages_view()[stage as int],
                stage < pre.stages_view().len(),
                stage_wf(st, pre.channels_view().len() as int),
                pre.stage_outputs_open(stage as int),
                channels@.len() == pre.channels_view().len(),
                forall|t: int|
                    0 <= t < j ==> {
                        let c = (#[trigger] st.outputs@[t]) as int;
                        &&& channels@[c].state == ChannelState::ClosedOk
                        &&& channels@[c].content() == pre.channels_view()[c].content()
                    },
                forall|c: int|
                    0 <= c < channels@.len() && (forall|t: int|
                        0 <= t < j ==> (#[trigger] st.outputs@[t]) != c) ==> channels@[c]
                        == pre.channels_view()[c],
            decreases n - j,
        {
            let c = stages[stage].outputs[j];
            proof {
                assert(forall|t: int|
                    0 <= t < j ==> (#[trigger] st.outputs@[t]) != st.outputs@[j as int]);
                assert(channels@[c as int] == pre.channels_view()[c as int]);
            }
            channel_close_ok(&mut channels, c);
            j = j + 1;
        }
        let mut done = Stage {
            query_id: String::new(),
            stage_id: String::new(),
            outputs: Vec::new(),
            scatter: ScatterExpr::Literal(0),
            state: StageState::Running,
        };
        stages.set_and_swap(stage, &mut done);
        done.state = StageState::Completed;
        stages.set_and_swap(stage, &mut done);
        proof {
            assert(stages@ =~= pre.stages_view().update(stage as int, stages@[stage as int]));
            let post_g = FlightDispatcher { channels, registry, stages };
            lemma_same_shape_preserves_wf(pre, post_g);
        }
        let post = FlightDispatcher { channels, registry, stages };
        *self = post;
    }

    /// Fail a stage: every destination channel — claimed or not — is closed in
    /// an error state carrying the same cause, so every current and future
    /// consumer observes that failure instead of hanging. No retry happens
    /// here.
    pub fn fail_stage(&mut self, stage: usize, cause: Error)
        requires
            stage < old(self).stages_view().len(),
            old(self).stages_view()[stage as int].state is Running,
            old(self).stage_outputs_open(stage as int),
        ensures
            final(self).registry_view() == old(self).registry_view(),
            final(self).channels_view().len() == old(self).channels_view().len(),
            final(self).stages_view().len() == old(self).stages_view().len(),
            forall|t: int|
                0 <= t < old(self).stages_view().len() && t != stage ==> (
                #[trigger] final(self).stages_view()[t]) == old(self).stages_view()[t],
            stage_progressed(
                old(self).stages_view()[stage as int],
                final(self).stages_view()[stage as int],
                StageState::Failed,
            ),
            ({
                let st = old(self).stages_view()[stage as int];
                &&& forall|j: int|
                    0 <= j < st.outputs@.len() ==> {
                        let c = (#[trigger] st.outputs@[j]) as int;
                        &&& final(self).channels_view()[c].state == ChannelState::ClosedErr(cause)
                        &&& final(self).channels_view()[c].content() == old(
                            self,
                        ).channels_view()[c].content()
                    }
                &&& forall|c: int|
                    0 <= c < old(self).channels_view().len() && !st.outputs@.contains(c as usize)
                        ==> final(self).channels_view()[c] == old(self).channels_view()[c]
            }),
    {
        proof {
            use_type_invariant(&*self);
        }
        let ghost pre = *self;
        let mut tmp = FlightDispatcher {
            channels: Vec::new(),
            registry: Vec::new(),
            stages: Vec::new(),
        };
        core::mem::swap(&mut tmp, self);
        let FlightDispatcher { mut channels, registry, mut stages } = tmp;
        let n = stages[stage].outputs.len();
        proof {
            assert(stage_wf(pre.stages_view()[stage as int], pre.channels_view().len() as int));
        }
        let ghost st = pre.stages_view()[stage as int];
        let mut j: usize = 0;
        while j < n
            invariant
                j <= n,
                n == st.outputs@.len(),
                stages@ == pre.stages_view(),
                st == pre.stages_view()[stage as int],
                stage < pre.stages_view().len(),
                stage_wf(st, pre.channels_view().len() as int),
                pre.stage_outputs_open(stage as int),
                channels@.len() == pre.channels_view().len(),
                forall|t: int|
                    0 <= t < j ==> {
                        let c = (#[trigger] st.outputs@[t]) as int;
                        &&& channels@[c].state == ChannelState::ClosedErr(cause)
                        &&& channels@[c].content() == pre.channels_view()[c].content()
                    },
                forall|c: int|
                    0 <= c < channels@.len() && (forall|t: int|
                        0 <= t < j ==> (#[trigger] st.outputs@[t]) != c) ==> channels@[c]
                        == pre.channels_view()[c],
            decreases n - j,
        {
            let c = stages[stage].outputs[j];
            proof {
                assert(forall|t: int|
                    0 <= t < j ==> (#[trigger] st.outputs@[t]) != st.outputs@[j as int]);
                assert(channels@[c as int] == pre.channels_view()[c as int]);
            }
            channel_close_err(&mut channels, c, cause.clone());
            j = j + 1;
        }
        let mut done = Stage {
            query_id: String::new(),
            stage_id: String::new(),
            outputs: Vec::new(),
            scatter: ScatterExpr::Literal(0),
            state: StageState::Running,
        };
        stages.set_and_swap(stage, &mut done);
        done.state = StageState::Failed;
        stages.set_and_swap(stage, &mut done);
        proof {
            assert(stages@ =~= pre.stages_view().update(stage as int, stages@[stage as int]));
            let post_g = FlightDispatcher { channels, registry, stages };
            lemma_same_shape_preserves_wf(pre, post_g);
        }
        let post = FlightDispatcher { channels, registry, stages };
        *self = post;
    }
}

/// One step of a pull-based stream reader.
pub enum StreamPoll {
    /// The next batch, in emission order.
    Batch(Vec<u64>),
    /// The channel is open but currently empty: the reader would suspend.
    Pending,
    /// The channel was closed in success state and is drained: the sequence
    /// ends cleanly.
    End,
    /// The channel was closed in an error state: the carried cause propagates
    /// to the reader.
    Failed(Error),
}

/// Copy a row batch.
fn copy_rows(v: &Vec<u64>) -> (r: Vec<u64>)
    ensures
        r@ == v@,
{
    let mut r: Vec<u64> = Vec::new();
    let mut i: usize = 0;
    while i < v.len()
        invariant
            i <= v@.len(),
            r@ == v@.take(i as int),
        decreases v@.len() - i,
    {
        r.push(v[i]);
        proof {
            assert(v@.take(i + 1) =~= v@.take(i as int).push(v@[i as int]));
        }
        i = i + 1;
    }
    proof {
        assert(v@.take(v@.len() as int) =~= v@);
    }
    r
}

impl FlightDispatcher {
    /// Pull the next step of a claimed stream: a batch while one is buffered
    /// beyond the cursor, `Pending` while the channel is open and drained,
    /// clean termination after a success close, and the carried failure after
    /// an error close. Batches come strictly in emission order.
    pub fn poll_stream(&self, h: &mut StreamHandle) -> (p: StreamPoll)
        requires
            old(h).channel < self.channels_view().len(),
        ensures
            ({
                let c = self.channels_view()[old(h).channel as int];
                if old(h).pos < c.content().len() {
                    &&& p matches StreamPoll::Batch(b) && b@ == c.content()[old(h).pos as int]
                    &&& final(h).channel == old(h).channel
                    &&& final(h).pos == old(h).pos + 1
                } else {
                    &&& *final(h) == *old(h)
                    &&& match c.state {
                        ChannelState::Open => p is Pending,
                        ChannelState::ClosedOk => p is End,
                        ChannelState::ClosedErr(e) => p == StreamPoll::Failed(e),
                    }
                }
            }),
    {
        let c = &self.channels[h.channel];
        if h.pos < c.batches.len() {
            let b = copy_rows(&c.batches[h.pos]);
            h.pos = h.pos + 1;
            StreamPoll::Batch(b)
        } else {
            match &c.state {
                ChannelState::Open => StreamPoll::Pending,
                ChannelState::ClosedOk => StreamPoll::End,
                ChannelState::ClosedErr(e) => StreamPoll::Failed(e.clone()),
            }
        }
    }

    /// Drain a terminated stream: all batches past the cursor in emission
    /// order after a success close, or the carried failure after an error
    /// close.
    pub fn collect_stream(&self, h: &mut StreamHandle) -> (r: Result<Vec<Vec<u64>>, Error>)
        requires
            old(h).channel < self.channels_view().len(),
            !(self.channels_view()[old(h).channel as int].state is Open),
            old(h).pos <= self.channels_view()[old(h).channel as int].content().len(),
        ensures
            final(h).channel == old(h).channel,
            ({
                let c = self.channels_view()[old(h).channel as int];
                match c.state {
                    ChannelState::Open => false,
                    ChannelState::ClosedOk => {
                        &&& r matches Result::Ok(v) && v@.len() == c.content().len() - old(h).pos
                            && (forall|t: int|
                            0 <= t < v@.len() ==> (#[trigger] v@[t])@ == c.content()[old(h).pos
                                + t])
                        &&& final(h).pos == c.content().len()
                    },
                    ChannelState::ClosedErr(e) => r == Result::<Vec<Vec<u64>>, Error>::Err(e)
                        && *final(h) == *old(h),
                }
            }),
    {
        let c = &self.channels[h.channel];
        match &c.state {
            ChannelState::Open => vstd::pervasive::unreached(),
            ChannelState::ClosedErr(e) => Result::Err(e.clone()),
            ChannelState::ClosedOk => {
                let ghost start = h.pos as int;
                let mut v: Vec<Vec<u64>> = Vec::new();
                while h.pos < c.batches.len()
                    invariant
                        h.channel == old(h).channel,
                        old(h).channel < self.channels_view().len(),
                        *c == self.channels_view()[old(h).channel as int],
                        start <= h.pos <= c.batches@.len(),
                        v@.len() == h.pos - start,
                        forall|t: int| 0 <= t < v@.len() ==> (#[trigger] v@[t])@ == c.content()[start + t],
                    decreases c.batches@.len() - h.pos,
                {
                    let b = copy_rows(&c.batches[h.pos]);
                    v.push(b);
                    h.pos = h.pos + 1;
                }
                Result::Ok(v)
            },
        }
    }

    /// The number of channels created so far.
    pub fn channel_count(&self) -> (n: usize)
        ensures
            n == self.channels_view().len(),
    {
        self.channels.len()
    }

    /// The number of registered stages.
    pub fn stage_count(&self) -> (n: usize)
        ensures
            n == self.stages_view().len(),
    {
        self.stages.len()
    }

    /// Whether a stage is still running.
    pub fn stage_is_running(&self, stage: usize) -> (b: bool)
        requires
            stage < self.stages_view().len(),
        ensures
            b == (self.stages_view()[stage as int].state is Running),
    {
        match self.stages[stage].state {
            StageState::Running => true,
            StageState::Completed => false,
            StageState::Failed => false,
        }
    }

    /// Whether every output channel of a stage is still open.
    pub fn stage_streams_open(&self, stage: usize) -> (b: bool)
        requires
            stage < self.stages_view().len(),
        ensures
            b == self.stage_outputs_open(stage as int),
    {
        proof {
            use_type_invariant(&*self);
            assert(stage_wf(self.stages_view()[stage as int], self.channels_view().len() as int));
        }
        let n = self.stages[stage].outputs.len();
        let mut j: usize = 0;
        let mut all_open = true;
        while j < n
            invariant
                j <= n,
                stage < self.stages_view().len(),
                n == self.stages_view()[stage as int].outputs@.len(),
                stage_wf(self.stages_view()[stage as int], self.channels_view().len() as int),
                all_open == (forall|t: int|
                    0 <= t < j ==> self.channels_view()[(
                    #[trigger] self.stages_view()[stage as int].outputs@[t]) as int].is_open()),
            decreases n - j,
        {
            let c = self.stages[stage].outputs[j];
            let open = match self.channels[c].state {
                ChannelState::Open => true,
                ChannelState::ClosedOk => false,
                ChannelState::ClosedErr(_) => false,
            };
            all_open = all_open && open;
            j = j + 1;
        }
        all_open
    }
}

/// A stage record moved to a terminal lifecycle state: every other field is
/// unchanged.
pub open spec fn stage_progressed(pre: Stage, post: Stage, to: StageState) -> bool {
    &&& post.query_id == pre.query_id
    &&& post.stage_id == pre.stage_id
    &&& post.outputs == pre.outputs
    &&& post.scatter == pre.scatter
    &&& post.state == to
}

/// A stream is handed over at most once: after a successful claim of a key
/// the registry no longer holds it, so no second claim of the same key can
/// succeed, whatever state the dispatcher reaches.
pub proof fn lemma_stream_claimed_at_most_once(
    d0: FlightDispatcher,
    d1: FlightDispatcher,
    d2: FlightDispatcher,
    k: StreamKeyV,
    h1: StreamHandle,
    h2: StreamHandle,
)
    requires
        claim_ok(d0, d1, k, h1),
    ensures
        !claim_ok(d1, d2, k, h2),
{
}

/// Preparing one stage does not block a different stage key: registration of
/// distinct (query_id, stage_id) pairs cannot interfere.
pub proof fn lemma_prepare_no_interference(
    d0: FlightDispatcher,
    d1: FlightDispatcher,
    info: PrepareStageInfo,
    q: Seq<char>,
    s: Seq<char>,
)
    requires
        prepare_ok(d0, d1, info),
        !d0.stage_registered(q, s),
        (info.query_id@, info.stage_id@) != (q, s),
    ensures
        !d1.stage_registered(q, s),
{
    let nst = d0.stages_view().len() as int;
    assert forall|t: int| 0 <= t < d1.stages_view().len() implies !((
    #[trigger] d1.stages_view()[t]).query_id@ == q && d1.stages_view()[t].stage_id@ == s) by {
        if t < nst {
            assert(d1.stages_view()[t] == d0.stages_view()[t]);
        }
    }
}

/// The set of stream keys a prepare request declares.
pub open spec fn stream_key_set(info: PrepareStageInfo) -> Set<StreamKeyV> {
    Set::new(
        |k: StreamKeyV|
            exists|j: int|
                0 <= j < info.destinations@.len() && k == (
                    info.query_id@,
                    info.stage_id@,
                    (#[trigger] info.destinations@[j])@,
                ),
    )
}

/// The set of stream keys the registry currently holds.
pub open spec fn registry_key_set(d: FlightDispatcher) -> Set<StreamKeyV> {
    Set::new(|k: StreamKeyV| d.registry_contains(k))
}

/// Preparing two stages with distinct keys leaves the registry holding exactly
/// the union of the previously held keys and both stages' declared streams —
/// no more, no less, whichever request was processed first.
pub proof fn lemma_prepare_distinct_stages(
    d0: FlightDispatcher,
    d1: FlightDispatcher,
    d2: FlightDispatcher,
    i1: PrepareStageInfo,
    i2: PrepareStageInfo,
)
    requires
        prepare_ok(d0, d1, i1),
        prepare_ok(d1, d2, i2),
        (i1.query_id@, i1.stage_id@) != (i2.query_id@, i2.stage_id@),
    ensures
        registry_key_set(d2) =~= registry_key_set(d0).union(stream_key_set(i1)).union(
            stream_key_set(i2),
        ),
{
    lemma_prepare_key_union(d0, d1, i1);
    lemma_prepare_key_union(d1, d2, i2);
}

/// One successful prepare adds exactly the declared stream keys to the
/// registry.
pub proof fn lemma_prepare_key_union(
    d0: FlightDispatcher,
    d1: FlightDispatcher,
    info: PrepareStageInfo,
)
    requires
        prepare_ok(d0, d1, info),
    ensures
        registry_key_set(d1) =~= registry_key_set(d0).union(stream_key_set(info)),
{
    let nreg = d0.registry_view().len() as int;
    let n = info.destinations@.len() as int;
    assert forall|k: StreamKeyV| #[trigger] registry_key_set(d1).contains(k) implies registry_key_set(
        d0,
    ).union(stream_key_set(info)).contains(k) by {
        let i = choose|i: int|
            0 <= i < d1.registry_view().len() && (#[trigger] d1.registry_view()[i]).key@ == k;
        if i < nreg {
            assert(d1.registry_view()[i] == d0.registry_view()[i]);
            assert(d0.registry_view()[i].key@ == k);
        } else {
            let j = i - nreg;
            assert(d1.registry_view()[nreg + j].key@ == (
                info.query_id@,
                info.stage_id@,
                info.destinations@[j]@,
            ));
            assert(stream_key_set(info).contains(k));
        }
    }
    assert forall|k: StreamKeyV| registry_key_set(d0).union(stream_key_set(info)).contains(
        k,
    ) implies #[trigger] registry_key_set(d1).contains(k) by {
        if registry_key_set(d0).contains(k) {
            let i = choose|i: int|
                0 <= i < d0.registry_view().len() && (#[trigger] d0.registry_view()[i]).key@ == k;
            assert(d1.registry_view()[i].key@ == k);
        } else {
            let j = choose|j: int|
                0 <= j < info.destinations@.len() && k == (
                    info.query_id@,
                    info.stage_id@,
                    (#[trigger] info.destinations@[j])@,
                );
            assert(d1.registry_view()[nreg + j].key@ == k);
        }
    }
}

} // verus!
