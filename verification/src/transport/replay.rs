//! Replay transport from a capture session (offline / CI).
use crate::bus::{AdapterCapabilities, BusTag};
use crate::capture::CaptureSession;
use crate::error::Error;
use crate::text::{
    chars_eq, chars_of, concat, drop_white, owned, push_char, push_str, starts_with,
    starts_with_chars, string_of, sviews, upper, upper_of, without_white,
};
use crate::transport::{frame_views, FrameDir, FrameView, Transport};
use std::collections::VecDeque;
use vstd::prelude::*;

verus! {

/// Queued responses of one command: the command key and its responses, oldest first.
pub type QueueView = (Seq<char>, Seq<Seq<char>>);

/// Commands are keyed without whitespace and in upper case.
pub open spec fn command_key(s: Seq<char>) -> Seq<char> {
    upper(drop_white(s))
}

/// First position at or after `from` of the queue of command `k`.
pub open spec fn entry_index_from(es: Seq<QueueView>, k: Seq<char>, from: int) -> Option<int>
    decreases es.len() - from,
{
    if from < 0 || from >= es.len() {
        None
    } else if es[from].0 == k {
        Some(from)
    } else {
        entry_index_from(es, k, from + 1)
    }
}

pub open spec fn entry_index(es: Seq<QueueView>, k: Seq<char>) -> Option<int> {
    entry_index_from(es, k, 0)
}

/// Groups (command, response) pairs into per-command queues, keeping the order
/// in which commands first occur and the order of each command's responses.
pub open spec fn group_pairs(pairs: Seq<(Seq<char>, Seq<char>)>) -> Seq<QueueView>
    decreases pairs.len(),
{
    if pairs.len() == 0 {
        Seq::empty()
    } else {
        let g = group_pairs(pairs.drop_last());
        let k = pairs.last().0;
        let r = pairs.last().1;
        match entry_index(g, k) {
            Some(i) => g.update(i, (k, g[i].1.push(r))),
            None => g.push((k, seq![r])),
        }
    }
}

/// Position of the first transmitted frame at or after `j`, or the end.
pub open spec fn next_tx_from(f: Seq<FrameView>, j: int) -> int
    decreases f.len() - j,
{
    if j < 0 || j >= f.len() {
        f.len() as int
    } else if f[j].dir == FrameDir::Tx {
        j
    } else {
        next_tx_from(f, j + 1)
    }
}

/// The received frames of `f[a..b]` joined with newlines.
pub open spec fn join_rx(f: Seq<FrameView>, a: int, b: int) -> Seq<char>
    decreases b - a,
{
    if b <= a {
        Seq::empty()
    } else {
        let acc = join_rx(f, a, b - 1);
        let d = f[b - 1];
        if d.dir == FrameDir::Rx {
            if acc.len() == 0 {
                d.data
            } else {
                acc + seq!['\n'] + d.data
            }
        } else {
            acc
        }
    }
}

/// The (command key, response) pairs of `f[i..]`: each transmitted frame with
/// the received frames up to the next transmitted one.
pub open spec fn replay_pairs_from(f: Seq<FrameView>, i: int) -> Seq<(Seq<char>, Seq<char>)>
    decreases f.len() - i,
{
    if i < 0 || i >= f.len() {
        Seq::empty()
    } else if f[i].dir == FrameDir::Tx {
        let j = next_tx_from(f, i + 1);
        proof {
            lemma_next_tx_bounds(f, i + 1);
        }
        seq![(command_key(f[i].data), join_rx(f, i + 1, j))] + replay_pairs_from(f, j)
    } else {
        replay_pairs_from(f, i + 1)
    }
}

pub proof fn lemma_next_tx_bounds(f: Seq<FrameView>, j: int)
    requires
        0 <= j,
    ensures
        j <= next_tx_from(f, j) <= f.len() || (j > f.len() && next_tx_from(f, j) == f.len()),
        next_tx_from(f, j) < f.len() ==> f[next_tx_from(f, j)].dir == FrameDir::Tx,
    decreases f.len() - j,
{
    if j < f.len() && f[j].dir != FrameDir::Tx {
        lemma_next_tx_bounds(f, j + 1);
    }
}

/// The state of a replay: per-command queues and the fallback queue.
pub struct ReplayModel {
    pub name: Seq<char>,
    pub caps: AdapterCapabilities,
    pub bus: BusTag,
    pub queues: Seq<QueueView>,
    pub order: Seq<Seq<char>>,
}

/// How one command is answered: the next queued response of its key (the last
/// one stays queued so that repeated polls keep working), else `OK` for
/// `AT`/`ST` commands, else the next response in capture order, else nothing.
pub open spec fn replay_step(queues: Seq<QueueView>, order: Seq<Seq<char>>, key: Seq<char>) -> (
    Seq<QueueView>,
    Seq<Seq<char>>,
    Option<Seq<char>>,
) {
    let hit = match entry_index(queues, key) {
        Some(i) => queues[i].1.len() > 0,
        None => false,
    };
    if hit {
        let i = entry_index(queues, key)->Some_0;
        let q = queues[i].1;
        let rest = if q.len() == 1 {
            q
        } else {
            q.drop_first()
        };
        (queues.update(i, (key, rest)), order, Some(q[0]))
    } else if starts_with(key, "AT"@) || starts_with(key, "ST"@) {
        (queues, order, Some("OK"@))
    } else if order.len() > 0 {
        (queues, order.drop_first(), Some(order[0]))
    } else {
        (queues, order, None)
    }
}

/// Total number of queued per-command responses.
pub open spec fn total_queued(q: Seq<QueueView>) -> nat
    decreases q.len(),
{
    if q.len() == 0 {
        0
    } else {
        total_queued(q.drop_last()) + q.last().1.len()
    }
}

struct ReplayEntry {
    key: String,
    queue: VecDeque<String>,
}

spec fn entry_view(e: ReplayEntry) -> QueueView {
    (e.key@, sviews(e.queue@))
}

spec fn entries_view(es: Seq<ReplayEntry>) -> Seq<QueueView> {
    es.map_values(|e: ReplayEntry| entry_view(e))
}

/// Queues have distinct keys and none is empty.
pub open spec fn queues_wf(q: Seq<QueueView>) -> bool {
    &&& forall|i: int, j: int| 0 <= i < j < q.len() ==> q[i].0 != q[j].0
    &&& forall|i: int| 0 <= i < q.len() ==> (#[trigger] q[i]).1.len() > 0
}

/// Replays captured TX/RX pairs without hardware.
///
/// Responses are keyed by normalized command (uppercase, no whitespace). Each
/// command keeps a FIFO of responses so repeated PID polls work.
pub struct ReplayTransport {
    name: String,
    caps: AdapterCapabilities,
    active_bus: BusTag,
    entries: Vec<ReplayEntry>,
    /// Fallback FIFO when command was not in capture.
    order: VecDeque<String>,
}

impl View for ReplayTransport {
    type V = ReplayModel;

    closed spec fn view(&self) -> ReplayModel {
        ReplayModel {
            name: self.name@,
            caps: self.caps,
            bus: self.active_bus,
            queues: entries_view(self.entries@),
            order: sviews(self.order@),
        }
    }
}

proof fn lemma_entries_view_update(es: Seq<ReplayEntry>, i: int, e: ReplayEntry)
    requires
        0 <= i < es.len(),
    ensures
        entries_view(es.update(i, e)) == entries_view(es).update(i, entry_view(e)),
{
    assert(entries_view(es.update(i, e)) =~= entries_view(es).update(i, entry_view(e)));
}

proof fn lemma_entries_view_push(es: Seq<ReplayEntry>, e: ReplayEntry)
    ensures
        entries_view(es.push(e)) == entries_view(es).push(entry_view(e)),
{
    assert(entries_view(es.push(e)) =~= entries_view(es).push(entry_view(e)));
}

proof fn lemma_entry_index_from(es: Seq<QueueView>, k: Seq<char>, from: int)
    requires
        0 <= from,
    ensures
        match entry_index_from(es, k, from) {
            Some(i) => from <= i < es.len() && es[i].0 == k && forall|j: int|
                from <= j < i ==> es[j].0 != k,
            None => forall|j: int| from <= j < es.len() ==> es[j].0 != k,
        },
    decreases es.len() - from,
{
    if from < es.len() && es[from].0 != k {
        lemma_entry_index_from(es, k, from + 1);
    }
}

proof fn lemma_total_update(q: Seq<QueueView>, i: int, e: QueueView)
    requires
        0 <= i < q.len(),
    ensures
        total_queued(q.update(i, e)) + q[i].1.len() == total_queued(q) + e.1.len(),
    decreases q.len(),
{
    if i == q.len() - 1 {
        assert(q.update(i, e).drop_last() =~= q.drop_last());
    } else {
        lemma_total_update(q.drop_last(), i, e);
        assert(q.update(i, e).drop_last() =~= q.drop_last().update(i, e));
    }
}

proof fn lemma_group_pairs(pairs: Seq<(Seq<char>, Seq<char>)>)
    ensures
        queues_wf(group_pairs(pairs)),
        total_queued(group_pairs(pairs)) == pairs.len(),
    decreases pairs.len(),
{
    if pairs.len() > 0 {
        let g = group_pairs(pairs.drop_last());
        let k = pairs.last().0;
        let r = pairs.last().1;
        lemma_group_pairs(pairs.drop_last());
        lemma_entry_index_from(g, k, 0);
        match entry_index(g, k) {
            Some(i) => {
                lemma_total_update(g, i, (k, g[i].1.push(r)));
            },
            None => {
                assert(g.push((k, seq![r])).drop_last() =~= g);
            },
        }
    }
}

proof fn lemma_replay_pairs_len(f: Seq<FrameView>, i: int)
    requires
        0 <= i,
    ensures
        replay_pairs_from(f, i).len() <= if i <= f.len() {
            f.len() - i
        } else {
            0
        },
    decreases f.len() - i,
{
    if i < f.len() {
        if f[i].dir == FrameDir::Tx {
            lemma_next_tx_bounds(f, i + 1);
            lemma_replay_pairs_len(f, next_tx_from(f, i + 1));
        } else {
            lemma_replay_pairs_len(f, i + 1);
        }
    }
}

/// A response queue's command key is the key of the transmitted frame.
fn normalize_cmd(s: &str) -> (r: Vec<char>)
    ensures
        r@ == command_key(s@),
{
    upper_of(&without_white(&chars_of(s)))
}

fn find_entry(es: &Vec<ReplayEntry>, key: &Vec<char>) -> (r: Option<usize>)
    ensures
        r matches Some(i) ==> entry_index(entries_view(es@), key@) == Some(i as int) && i
            < es@.len() && entries_view(es@)[i as int].0 == key@,
        r is None ==> entry_index(entries_view(es@), key@) is None,
{
    let mut i: usize = 0;
    while i < es.len()
        invariant
            i <= es@.len(),
            entry_index(entries_view(es@), key@) == entry_index_from(
                entries_view(es@),
                key@,
                i as int,
            ),
        decreases es@.len() - i,
    {
        let k = chars_of(es[i].key.as_str());
        if chars_eq(&k, key) {
            assert(entries_view(es@)[i as int].0 == key@);
            return Some(i);
        }
        i += 1;
    }
    None
}

fn string_copies(v: &Vec<char>) -> (r: String)
    ensures
        r@ == v@,
{
    string_of(v)
}

impl ReplayTransport {
    #[verifier::type_invariant]
    spec fn well_formed(self) -> bool {
        &&& queues_wf(entries_view(self.entries@))
        &&& total_queued(entries_view(self.entries@)) <= usize::MAX
    }

    /// The replay state of a capture: per-command queues grouped from the
    /// capture's (command, response) pairs, and all responses in capture order.
    pub fn from_session(session: &CaptureSession, name: &str) -> (r: Self)
        ensures
            r@.name == name@,
            r@.caps == session.meta.capabilities,
            r@.bus == BusTag::Hs,
            r@.queues == group_pairs(replay_pairs_from(frame_views(session.frames@), 0)),
            r@.order == replay_pairs_from(frame_views(session.frames@), 0).map_values(
                |p: (Seq<char>, Seq<char>)| p.1,
            ),
            queues_wf(r@.queues),
            total_queued(r@.queues) == tx_count_from(frame_views(session.frames@), 0),
    {
        proof {
            lemma_replay_queues_one_response_per_request(frame_views(session.frames@));
        }
        let frames = &session.frames;
        let ghost fv = frame_views(frames@);
        let n = frames.len();
        let mut entries: Vec<ReplayEntry> = Vec::new();
        let mut order: VecDeque<String> = VecDeque::new();
        let ghost mut done: Seq<(Seq<char>, Seq<char>)> = Seq::empty();
        let mut i: usize = 0;
        proof {
            lemma_replay_pairs_len(fv, 0);
        }
        while i < n
            invariant
                n == frames@.len(),
                fv == frame_views(frames@),
                i <= n,
                done + replay_pairs_from(fv, i as int) == replay_pairs_from(fv, 0),
                replay_pairs_from(fv, 0).len() <= n,
                entries_view(entries@) == group_pairs(done),
                sviews(order@) == done.map_values(|p: (Seq<char>, Seq<char>)| p.1),
            decreases n - i,
        {
            if frames[i].dir == FrameDir::Tx {
                let key = normalize_cmd(frames[i].data.as_str());
                let mut j: usize = i + 1;
                let mut resp = String::new();
                while j < n && frames[j].dir != FrameDir::Tx
                    invariant
                        n == frames@.len(),
                        fv == frame_views(frames@),
                        i < j <= n,
                        next_tx_from(fv, i + 1) == next_tx_from(fv, j as int),
                        resp@ == join_rx(fv, i + 1, j as int),
                    decreases n - j,
                {
                    if frames[j].dir == FrameDir::Rx {
                        if !resp.as_str().is_empty() {
                            push_char(&mut resp, '\n');
                        }
                        push_str(&mut resp, frames[j].data.as_str());
                    }
                    j += 1;
                }
                proof {
                    lemma_next_tx_bounds(fv, i + 1);
                    assert(j == next_tx_from(fv, i + 1));
                    lemma_replay_pairs_len(fv, j as int);
                }
                let ghost pair = (command_key(fv[i as int].data), resp@);
                let ghost g = entries_view(entries@);
                proof {
                    lemma_entry_index_from(g, key@, 0);
                }
                let ghost old_es = entries@;
                match find_entry(&entries, &key) {
                    Some(idx) => {
                        let mut e = entries.remove(idx);
                        let ghost old_q = e.queue@;
                        e.queue.push_back(resp.clone());
                        entries.insert(idx, e);
                        proof {
                            assert(entries@ =~= old_es.update(idx as int, entries@[idx as int]));
                            assert(entries@[idx as int].queue@ == old_q.push(resp));
                            assert(entries@[idx as int].key == old_es[idx as int].key);
                            assert(g[idx as int] == entry_view(old_es[idx as int]));
                            assert(sviews(entries@[idx as int].queue@) =~= g[idx as int].1.push(
                                resp@,
                            ));
                            lemma_entries_view_update(old_es, idx as int, entries@[idx as int]);
                            assert(g[idx as int].0 == key@);
                            assert(entries@[idx as int].key@ == key@);
                            assert(entry_view(entries@[idx as int]) == (key@, g[idx as int].1.push(resp@)));
                            assert(entries_view(entries@) =~= g.update(
                                idx as int,
                                (key@, g[idx as int].1.push(resp@)),
                            ));
                        }
                    },
                    None => {
                        let mut q: VecDeque<String> = VecDeque::new();
                        q.push_back(resp.clone());
                        entries.push(ReplayEntry { key: string_copies(&key), queue: q });
                        proof {
                            assert(entries@ =~= old_es.push(entries@.last()));
                            assert(sviews(entries@.last().queue@) =~= seq![resp@]);
                            lemma_entries_view_push(old_es, entries@.last());
                            assert(entries_view(entries@) =~= g.push((key@, seq![resp@])));
                        }
                    },
                }
                let ghost old_order = order@;
                order.push_back(resp);
                proof {
                    let old_done = done;
                    assert(sviews(order@) =~= sviews(old_order).push(pair.1));
                    assert(old_done.push(pair).map_values(|p: (Seq<char>, Seq<char>)| p.1)
                        =~= old_done.map_values(|p: (Seq<char>, Seq<char>)| p.1).push(pair.1));
                    done = done.push(pair);
                    assert(done.drop_last() =~= old_done);
                    assert(sviews(order@) =~= done.map_values(
                        |p: (Seq<char>, Seq<char>)| p.1,
                    ));
                    assert(old_done + replay_pairs_from(fv, i as int) =~= done
                        + replay_pairs_from(fv, j as int));
                }
                i = j;
            } else {
                i += 1;
            }
        }
        proof {
            assert(done =~= replay_pairs_from(fv, 0));
            lemma_group_pairs(done);
        }
        ReplayTransport {
            name: owned(name),
            caps: session.meta.capabilities.duplicate(),
            active_bus: BusTag::Hs,
            entries,
            order,
        }
    }

    /// Number of responses still queued per command.
    pub fn remaining_responses(&self) -> (r: usize)
        ensures
            r == total_queued(self@.queues),
    {
        proof {
            use_type_invariant(self);
        }
        let mut total: usize = 0;
        let mut i: usize = 0;
        while i < self.entries.len()
            invariant
                i <= self.entries@.len(),
                total == total_queued(entries_view(self.entries@).subrange(0, i as int)),
                total_queued(entries_view(self.entries@)) <= usize::MAX,
            decreases self.entries@.len() - i,
        {
            proof {
                let ev = entries_view(self.entries@);
                assert(ev.subrange(0, i + 1).drop_last() =~= ev.subrange(0, i as int));
                lemma_total_prefix(ev, i + 1);
            }
            total = total + self.entries[i].queue.len();
            i += 1;
        }
        assert(entries_view(self.entries@).subrange(0, i as int) =~= entries_view(
            self.entries@,
        ));
        total
    }
}

proof fn lemma_total_prefix(q: Seq<QueueView>, n: int)
    requires
        0 <= n <= q.len(),
    ensures
        total_queued(q.subrange(0, n)) <= total_queued(q),
    decreases q.len() - n,
{
    if n < q.len() {
        lemma_total_prefix(q, n + 1);
        assert(q.subrange(0, n + 1).drop_last() =~= q.subrange(0, n));
    } else {
        assert(q.subrange(0, n) =~= q);
    }
}

impl Transport for ReplayTransport {
    fn name(&self) -> (r: &str)
        ensures
            r@ == self@.name,
    {
        self.name.as_str()
    }

    fn capabilities(&self) -> (r: &AdapterCapabilities)
        ensures
            *r == self@.caps,
    {
        &self.caps
    }

    fn active_bus(&self) -> (r: BusTag)
        ensures
            r == self@.bus,
    {
        self.active_bus
    }

    fn select_bus(&mut self, bus: BusTag) -> (r: Result<(), Error>)
        ensures
            r is Ok,
            final(self)@.bus == bus,
            final(self)@.queues == old(self)@.queues,
            final(self)@.order == old(self)@.order,
            final(self)@.name == old(self)@.name,
            final(self)@.caps == old(self)@.caps,
    {
        proof {
            use_type_invariant(&*self);
        }
        self.active_bus = bus;
        Ok(())
    }

    fn init(&mut self) -> (r: Result<(), Error>)
        ensures
            r is Ok,
            old(self)@.caps.identity@.len() == 0 ==> final(self)@.caps.identity@ == "replay"@
                && final(self)@.caps.elm_compatible,
            old(self)@.caps.identity@.len() != 0 ==> final(self)@.caps == old(self)@.caps,
            final(self)@.queues == old(self)@.queues,
            final(self)@.order == old(self)@.order,
            final(self)@.name == old(self)@.name,
            final(self)@.bus == old(self)@.bus,
    {
        proof {
            use_type_invariant(&*self);
        }
        if self.caps.identity.as_str().is_empty() {
            self.caps.identity = owned("replay");
            self.caps.elm_compatible = true;
        }
        Ok(())
    }

    fn transact(&mut self, command: &str) -> (r: Result<String, Error>)
        ensures
            ({
                let step = replay_step(old(self)@.queues, old(self)@.order, command_key(command@));
                &&& final(self)@.queues == step.0
                &&& final(self)@.order == step.1
                &&& match step.2 {
                    Some(a) => r matches Ok(x) && x@ == a,
                    None => r matches Err(Error::Protocol(m)) && m@
                        == "replay has no response for "@ + command@,
                }
            }),
            final(self)@.name == old(self)@.name,
            final(self)@.caps == old(self)@.caps,
            final(self)@.bus == old(self)@.bus,
            queues_wf(final(self)@.queues),
            total_queued(final(self)@.queues) + match entry_index(
                old(self)@.queues,
                command_key(command@),
            ) {
                Some(i) => if old(self)@.queues[i].1.len() >= 2 {
                    1int
                } else {
                    0int
                },
                None => 0int,
            } == total_queued(old(self)@.queues),
    {
        proof {
            use_type_invariant(&*self);
            lemma_replay_remaining_after_poll(self@.queues, self@.order, command_key(command@));
        }
        let key = normalize_cmd(command);
        let ghost g = entries_view(self.entries@);
        let mut entries: Vec<ReplayEntry> = Vec::new();
        std::mem::swap(&mut entries, &mut self.entries);
        proof {
            lemma_entry_index_from(g, key@, 0);
        }
        let ghost old_es = entries@;
        if let Some(idx) = find_entry(&entries, &key) {
            let mut e = entries.remove(idx);
            let ghost old_q = e.queue@;
            if let Some(resp) = e.queue.pop_front() {
                if e.queue.len() == 0 {
                    e.queue.push_back(resp.clone());
                }
                entries.insert(idx, e);
                proof {
                    assert(entries@ =~= old_es.update(idx as int, entries@[idx as int]));
                    if old_q.len() == 1 {
                        assert(entries@[idx as int].queue@ =~= old_q);
                    } else {
                        assert(entries@[idx as int].queue@ =~= old_q.drop_first());
                    }
                    assert(entries@[idx as int].key == old_es[idx as int].key);
                    assert(g[idx as int] == entry_view(old_es[idx as int]));
                    lemma_entries_view_update(old_es, idx as int, entries@[idx as int]);
                    let q = g[idx as int].1;
                    let rest = if q.len() == 1 {
                        q
                    } else {
                        q.drop_first()
                    };
                    assert(sviews(entries@[idx as int].queue@) =~= rest);
                    assert(entries_view(entries@) =~= g.update(idx as int, (key@, rest)));
                    lemma_total_update(g, idx as int, (key@, rest));
                }
                self.entries = entries;
                return Ok(resp);
            }
            entries.insert(idx, e);
            assert(entries_view(entries@) =~= g);
        }
        self.entries = entries;
        if starts_with_chars(&key, &chars_of("AT")) || starts_with_chars(&key, &chars_of("ST")) {
            return Ok(owned("OK"));
        }
        let mut order: VecDeque<String> = VecDeque::new();
        std::mem::swap(&mut order, &mut self.order);
        let popped = order.pop_front();
        self.order = order;
        match popped {
            Some(resp) => Ok(resp),
            None => Err(Error::Protocol(concat("replay has no response for ", command))),
        }
    }
}

// ---------------------------------------------------------------------------
// Laws of replay
// ---------------------------------------------------------------------------

/// Commands that differ only in whitespace or ASCII case get the same answer
/// and leave the same state.
pub proof fn lemma_replay_keyed_by_normalized_command(
    queues: Seq<QueueView>,
    order: Seq<Seq<char>>,
    c1: Seq<char>,
    c2: Seq<char>,
)
    requires
        command_key(c1) == command_key(c2),
    ensures
        replay_step(queues, order, command_key(c1)) == replay_step(
            queues,
            order,
            command_key(c2),
        ),
{
}

/// Once a command has one queued response left, every further poll of it
/// returns that response and changes nothing.
pub proof fn lemma_replay_last_response_repeats(
    queues: Seq<QueueView>,
    order: Seq<Seq<char>>,
    key: Seq<char>,
    i: int,
)
    requires
        queues_wf(queues),
        entry_index(queues, key) == Some(i),
        queues[i].1.len() == 1,
    ensures
        replay_step(queues, order, key) == (queues, order, Some(queues[i].1[0])),
{
    lemma_entry_index_from(queues, key, 0);
    assert(queues.update(i, (key, queues[i].1)) =~= queues);
}

/// A command with several queued responses gets the oldest one, which leaves
/// its queue; the fallback queue is untouched.
pub proof fn lemma_replay_fifo(
    queues: Seq<QueueView>,
    order: Seq<Seq<char>>,
    key: Seq<char>,
    i: int,
)
    requires
        queues_wf(queues),
        entry_index(queues, key) == Some(i),
        queues[i].1.len() > 1,
    ensures
        replay_step(queues, order, key).2 == Some(queues[i].1[0]),
        replay_step(queues, order, key).0[i].1 == queues[i].1.drop_first(),
        replay_step(queues, order, key).1 == order,
        total_queued(replay_step(queues, order, key).0) + 1 == total_queued(queues),
{
    lemma_entry_index_from(queues, key, 0);
    lemma_total_update(queues, i, (key, queues[i].1.drop_first()));
}

/// A capture's queues never lose a command: polling keeps every key queued.
pub proof fn lemma_replay_keeps_queues_wf(
    queues: Seq<QueueView>,
    order: Seq<Seq<char>>,
    key: Seq<char>,
)
    requires
        queues_wf(queues),
    ensures
        queues_wf(replay_step(queues, order, key).0),
        replay_step(queues, order, key).0.len() == queues.len(),
        forall|j: int|
            0 <= j < queues.len() ==> (#[trigger] replay_step(queues, order, key).0[j]).0
                == queues[j].0,
{
    lemma_entry_index_from(queues, key, 0);
}

} // verus!

verus! {

/// The responses recorded for command key `k`, in capture order.
pub open spec fn responses_of(pairs: Seq<(Seq<char>, Seq<char>)>, k: Seq<char>) -> Seq<Seq<char>>
    decreases pairs.len(),
{
    if pairs.len() == 0 {
        Seq::empty()
    } else if pairs.last().0 == k {
        responses_of(pairs.drop_last(), k).push(pairs.last().1)
    } else {
        responses_of(pairs.drop_last(), k)
    }
}

/// Grouping keeps, for every command, exactly its recorded responses in the
/// order they were recorded; a command without responses gets no queue.
pub proof fn lemma_group_pairs_keeps_responses(pairs: Seq<(Seq<char>, Seq<char>)>, k: Seq<char>)
    ensures
        match entry_index(group_pairs(pairs), k) {
            Some(i) => group_pairs(pairs)[i].1 == responses_of(pairs, k),
            None => responses_of(pairs, k).len() == 0,
        },
    decreases pairs.len(),
{
    if pairs.len() > 0 {
        let g = group_pairs(pairs.drop_last());
        let k2 = pairs.last().0;
        let r = pairs.last().1;
        lemma_group_pairs_keeps_responses(pairs.drop_last(), k);
        lemma_entry_index_from(g, k, 0);
        lemma_entry_index_from(g, k2, 0);
        let ng = group_pairs(pairs);
        lemma_entry_index_from(ng, k, 0);
        match entry_index(g, k2) {
            Some(i2) => {
                assert(ng == g.update(i2, (k2, g[i2].1.push(r))));
                if k2 == k {
                    assert(ng[i2].0 == k);
                    assert(forall|j: int| 0 <= j < i2 ==> ng[j] == g[j]);
                    assert(entry_index(ng, k) == Some(i2));
                } else {
                    assert(forall|j: int| 0 <= j < ng.len() ==> ng[j].0 == g[j].0);
                    match entry_index(g, k) {
                        Some(i) => {
                            assert(ng[i] == g[i]);
                            assert(entry_index(ng, k) == Some(i));
                        },
                        None => {
                            assert(entry_index(ng, k) is None);
                        },
                    }
                }
            },
            None => {
                assert(ng == g.push((k2, seq![r])));
                if k2 == k {
                    assert(ng[g.len() as int].0 == k);
                    assert(forall|j: int| 0 <= j < g.len() ==> ng[j] == g[j]);
                    assert(entry_index(ng, k) == Some(g.len() as int));
                    assert(responses_of(pairs.drop_last(), k).push(r) =~= seq![r]);
                } else {
                    assert(forall|j: int| 0 <= j < g.len() ==> ng[j] == g[j]);
                    assert(ng[g.len() as int].0 != k);
                    match entry_index(g, k) {
                        Some(i) => {
                            assert(entry_index(ng, k) == Some(i));
                        },
                        None => {
                            assert(entry_index(ng, k) is None);
                        },
                    }
                }
            },
        }
    }
}

/// Replaying a capture answers a command that was recorded with the first
/// response recorded for it.
pub proof fn lemma_replay_answers_first_recorded(
    pairs: Seq<(Seq<char>, Seq<char>)>,
    order: Seq<Seq<char>>,
    k: Seq<char>,
)
    requires
        responses_of(pairs, k).len() > 0,
    ensures
        replay_step(group_pairs(pairs), order, k).2 == Some(responses_of(pairs, k)[0]),
{
    lemma_group_pairs_keeps_responses(pairs, k);
}

} // verus!

verus! {

/// The number of transmitted frames in `f[i..]`.
pub open spec fn tx_count_from(f: Seq<FrameView>, i: int) -> nat
    decreases f.len() - i,
{
    if i < 0 || i >= f.len() {
        0
    } else if f[i].dir == FrameDir::Tx {
        tx_count_from(f, i + 1) + 1
    } else {
        tx_count_from(f, i + 1)
    }
}

proof fn lemma_tx_count_skips_rx(f: Seq<FrameView>, j: int)
    requires
        0 <= j,
    ensures
        tx_count_from(f, j) == tx_count_from(f, next_tx_from(f, j)),
    decreases f.len() - j,
{
    if j < f.len() && f[j].dir != FrameDir::Tx {
        lemma_tx_count_skips_rx(f, j + 1);
    }
}

proof fn lemma_pairs_count_tx(f: Seq<FrameView>, i: int)
    requires
        0 <= i,
    ensures
        replay_pairs_from(f, i).len() == tx_count_from(f, i),
    decreases f.len() - i,
{
    if i < f.len() {
        if f[i].dir == FrameDir::Tx {
            lemma_next_tx_bounds(f, i + 1);
            lemma_tx_count_skips_rx(f, i + 1);
            lemma_pairs_count_tx(f, next_tx_from(f, i + 1));
        } else {
            lemma_pairs_count_tx(f, i + 1);
        }
    }
}

/// A replay built from a capture holds one queued response per transmitted
/// frame of the capture.
pub proof fn lemma_replay_queues_one_response_per_request(f: Seq<FrameView>)
    ensures
        total_queued(group_pairs(replay_pairs_from(f, 0))) == tx_count_from(f, 0),
{
    lemma_pairs_count_tx(f, 0);
    lemma_group_pairs(replay_pairs_from(f, 0));
}

/// Polling one command leaves every other command's queue as it was.
pub proof fn lemma_replay_other_command_untouched(
    queues: Seq<QueueView>,
    order: Seq<Seq<char>>,
    key: Seq<char>,
    other: Seq<char>,
    i: int,
)
    requires
        queues_wf(queues),
        entry_index(queues, key) == Some(i),
        other != key,
    ensures
        replay_step(queues, order, other).0[i] == queues[i],
        entry_index(replay_step(queues, order, other).0, key) == Some(i),
{
    lemma_entry_index_from(queues, key, 0);
    lemma_entry_index_from(queues, other, 0);
    let q2 = replay_step(queues, order, other).0;
    lemma_replay_keeps_queues_wf(queues, order, other);
    lemma_entry_index_from(q2, key, 0);
    assert(q2[i] == queues[i]);
}

/// The queue of a command after it was polled `n` times in a row.
pub open spec fn polled(queue: Seq<Seq<char>>, n: nat) -> Seq<Seq<char>>
    decreases n,
{
    if n == 0 || queue.len() <= 1 {
        queue
    } else {
        polled(queue.drop_first(), (n - 1) as nat)
    }
}

proof fn lemma_polled_shape(queue: Seq<Seq<char>>, n: nat)
    requires
        queue.len() >= 1,
    ensures
        polled(queue, n).len() >= 1,
        polled(queue, n)[0] == queue[if n < queue.len() { n as int } else { queue.len() - 1 }],
    decreases n,
{
    if n > 0 && queue.len() > 1 {
        lemma_polled_shape(queue.drop_first(), (n - 1) as nat);
    }
}

proof fn lemma_polled_next(queue: Seq<Seq<char>>, n: nat)
    requires
        queue.len() >= 1,
    ensures
        polled(queue, n + 1) == (if polled(queue, n).len() == 1 {
            polled(queue, n)
        } else {
            polled(queue, n).drop_first()
        }),
    decreases n,
{
    if queue.len() > 1 {
        assert(polled(queue, n + 1) == polled(queue.drop_first(), n));
        if n > 0 {
            assert(polled(queue, n) == polled(queue.drop_first(), (n - 1) as nat));
            assert((n - 1) as nat + 1 == n);
            lemma_polled_next(queue.drop_first(), (n - 1) as nat);
        } else {
            assert(polled(queue.drop_first(), 0) == queue.drop_first());
        }
    }
}

/// The `n`-th poll of a recorded command (counted from 0) answers with its
/// `n`-th recorded response, or with its last one once they run out, and
/// moves its queue on to the state after `n + 1` polls. Polls of other
/// commands in between leave its queue alone
/// ([`lemma_replay_other_command_untouched`]), and a replay starts each
/// command's queue with all its recorded responses
/// ([`lemma_group_pairs_keeps_responses`]).
pub proof fn lemma_replay_nth_poll(
    queues: Seq<QueueView>,
    order: Seq<Seq<char>>,
    key: Seq<char>,
    i: int,
    recorded_responses: Seq<Seq<char>>,
    n: nat,
)
    requires
        queues_wf(queues),
        entry_index(queues, key) == Some(i),
        recorded_responses.len() >= 1,
        queues[i].1 == polled(recorded_responses, n),
    ensures
        replay_step(queues, order, key).2 == Some(
            recorded_responses[if n < recorded_responses.len() {
                n as int
            } else {
                recorded_responses.len() - 1
            }],
        ),
        replay_step(queues, order, key).0[i].1 == polled(recorded_responses, n + 1),
        entry_index(replay_step(queues, order, key).0, key) == Some(i),
        queues_wf(replay_step(queues, order, key).0),
{
    lemma_entry_index_from(queues, key, 0);
    lemma_polled_shape(recorded_responses, n);
    lemma_polled_next(recorded_responses, n);
    lemma_replay_keeps_queues_wf(queues, order, key);
    let q2 = replay_step(queues, order, key).0;
    lemma_entry_index_from(q2, key, 0);
}


/// The queues, fallback order and answers of a replay after polling the
/// command keys `keys` in turn.
pub open spec fn replay_run(queues: Seq<QueueView>, order: Seq<Seq<char>>, keys: Seq<Seq<char>>) -> (
    Seq<QueueView>,
    Seq<Seq<char>>,
    Seq<Option<Seq<char>>>,
)
    decreases keys.len(),
{
    if keys.len() == 0 {
        (queues, order, Seq::empty())
    } else {
        let prev = replay_run(queues, order, keys.drop_last());
        let step = replay_step(prev.0, prev.1, keys.last());
        (step.0, step.1, prev.2.push(step.2))
    }
}

/// How many of `keys` are `k`.
pub open spec fn count_key(keys: Seq<Seq<char>>, k: Seq<char>) -> nat
    decreases keys.len(),
{
    if keys.len() == 0 {
        0
    } else {
        count_key(keys.drop_last(), k) + if keys.last() == k {
            1nat
        } else {
            0nat
        }
    }
}

/// The response a command's `n`-th poll (counted from 0) gets from its
/// recorded responses: the `n`-th, or the last once they run out.
pub open spec fn nth_response(recorded_responses: Seq<Seq<char>>, n: nat) -> Seq<char> {
    recorded_responses[if n < recorded_responses.len() {
        n as int
    } else {
        recorded_responses.len() - 1
    }]
}

/// Polling any commands in turn: every poll of a command whose queue holds
/// `recorded_responses` answers with the response its rank among the polls
/// of that command gives, whatever other commands are polled in between,
/// and the queue ends as that many polls leave it.
pub proof fn lemma_replay_run_polls(
    queues: Seq<QueueView>,
    order: Seq<Seq<char>>,
    key: Seq<char>,
    i: int,
    recorded_responses: Seq<Seq<char>>,
    keys: Seq<Seq<char>>,
)
    requires
        queues_wf(queues),
        entry_index(queues, key) == Some(i),
        recorded_responses.len() >= 1,
        queues[i].1 == recorded_responses,
    ensures
        queues_wf(replay_run(queues, order, keys).0),
        entry_index(replay_run(queues, order, keys).0, key) == Some(i),
        replay_run(queues, order, keys).0[i].1 == polled(recorded_responses, count_key(keys, key)),
        replay_run(queues, order, keys).2.len() == keys.len(),
        forall|j: int|
            0 <= j < keys.len() && keys[j] == key ==> (#[trigger] replay_run(queues, order, keys).2[j])
                == Some(nth_response(recorded_responses, count_key(keys.take(j), key))),
    decreases keys.len(),
{
    if keys.len() == 0 {
        assert(polled(recorded_responses, 0) == recorded_responses);
    } else {
        let d = keys.drop_last();
        let k = keys.last();
        lemma_replay_run_polls(queues, order, key, i, recorded_responses, d);
        let prev = replay_run(queues, order, d);
        let c = count_key(d, key);
        let run = replay_run(queues, order, keys);
        if k == key {
            lemma_replay_nth_poll(prev.0, prev.1, key, i, recorded_responses, c);
        } else {
            lemma_replay_other_command_untouched(prev.0, prev.1, key, k, i);
            lemma_replay_keeps_queues_wf(prev.0, prev.1, k);
        }
        assert forall|j: int|
            0 <= j < keys.len() && keys[j] == key implies (#[trigger] run.2[j]) == Some(
            nth_response(recorded_responses, count_key(keys.take(j), key)),
        ) by {
            if j < d.len() {
                assert(run.2[j] == prev.2[j]);
                assert(d[j] == keys[j]);
                assert(keys.take(j) =~= d.take(j));
            } else {
                assert(keys.take(j) =~= d);
            }
        }
    }
}

/// Replaying a capture: whatever commands are sent, in whatever order, the
/// `n`-th request (counted from 0) for a recorded command gets its `n`-th
/// recorded response, and its last one again once they run out.
pub proof fn lemma_replay_capture_polls(
    f: Seq<FrameView>,
    order: Seq<Seq<char>>,
    key: Seq<char>,
    keys: Seq<Seq<char>>,
)
    requires
        responses_of(replay_pairs_from(f, 0), key).len() > 0,
    ensures
        forall|j: int|
            0 <= j < keys.len() && keys[j] == key ==> (#[trigger] replay_run(
                group_pairs(replay_pairs_from(f, 0)),
                order,
                keys,
            ).2[j]) == Some(
                nth_response(responses_of(replay_pairs_from(f, 0), key), count_key(keys.take(j), key)),
            ),
{
    let pairs = replay_pairs_from(f, 0);
    lemma_group_pairs(pairs);
    lemma_group_pairs_keeps_responses(pairs, key);
    let i = entry_index(group_pairs(pairs), key)->Some_0;
    lemma_replay_run_polls(group_pairs(pairs), order, key, i, responses_of(pairs, key), keys);
}


/// What one request does to the number of queued responses: it drops by one
/// when the command has two or more queued, and stays the same otherwise (one
/// left, which repeats, or a command the capture did not record).
pub proof fn lemma_replay_remaining_after_poll(
    queues: Seq<QueueView>,
    order: Seq<Seq<char>>,
    key: Seq<char>,
)
    requires
        queues_wf(queues),
    ensures
        total_queued(replay_step(queues, order, key).0) == total_queued(queues) - match entry_index(
            queues,
            key,
        ) {
            Some(i) => if queues[i].1.len() >= 2 {
                1int
            } else {
                0int
            },
            None => 0int,
        },
{
    lemma_entry_index_from(queues, key, 0);
    match entry_index(queues, key) {
        Some(i) => {
            if queues[i].1.len() >= 2 {
                lemma_replay_fifo(queues, order, key, i);
            } else {
                lemma_replay_last_response_repeats(queues, order, key, i);
            }
        },
        None => {},
    }
}

} // verus!
