//! A client's slice of the host store: its client state, its consensus
//! states keyed by height, and the host metadata recorded at each update.
//! Consensus states are append-only: an update at an already stored height
//! is a no-op.

use vstd::prelude::*;

use crate::client_state::{spec_status, ClientState, SpecClientState};
use crate::consensus_state::{ConsensusState, SpecConsensusState};
use crate::error::{Error, Status};
use crate::hash::{enc_hash_list, hash_list_view};
use crate::header::{Header, SpecHeader};
use crate::height::Height;
use crate::misbehaviour::Misbehaviour;
use crate::update_client::{
    spec_misbehaviour_on_update, spec_verify_header, spec_misbehaviour_header_pair,
};
use crate::validator::spec_opt_validator_list_wf;

verus! {

/// A client's stored state. Consensus states are keyed by revision height —
/// NEAR headers always carry revision number zero — in strictly increasing
/// order.
pub struct ClientStore {
    pub client_state: ClientState,
    pub consensus_states: Vec<(u64, ConsensusState)>,
    /// One record per performed update: the header height, the host's clock
    /// reading, and the host's height at that moment.
    pub update_log: Vec<(u64, u64, Height)>,
}

/// The mathematical content of a client's stored state.
pub struct SpecClientStore {
    pub client_state: SpecClientState,
    pub consensus_states: Seq<(u64, SpecConsensusState)>,
    pub update_log: Seq<(u64, u64, Height)>,
}

/// The view of the consensus-state map, entry by entry.
pub open spec fn cs_map_view(v: Seq<(u64, ConsensusState)>) -> Seq<(u64, SpecConsensusState)> {
    v.map_values(|p: (u64, ConsensusState)| (p.0, p.1@))
}

impl View for ClientStore {
    type V = SpecClientStore;

    open spec fn view(&self) -> SpecClientStore {
        SpecClientStore {
            client_state: self.client_state@,
            consensus_states: cs_map_view(self.consensus_states@),
            update_log: self.update_log@,
        }
    }
}

/// Keys strictly increase: each height is stored at most once, in order.
pub open spec fn spec_keys_sorted(s: Seq<(u64, SpecConsensusState)>) -> bool {
    forall|i: int, j: int| 0 <= i < j < s.len() ==> (#[trigger] s[i]).0 < (#[trigger] s[j]).0
}

impl SpecClientStore {
    pub open spec fn wf(self) -> bool {
        spec_keys_sorted(self.consensus_states)
    }
}

// ---------------------------------------------------------------------------
// Lookups
// ---------------------------------------------------------------------------

/// The consensus state stored at exactly the given height.
pub open spec fn spec_find(s: Seq<(u64, SpecConsensusState)>, h: u64) -> Option<SpecConsensusState>
    decreases s.len(),
{
    if s.len() == 0 {
        None
    } else if s[0].0 == h {
        Some(s[0].1)
    } else {
        spec_find(s.drop_first(), h)
    }
}

/// The stored consensus state with the greatest height strictly below `h`.
pub open spec fn spec_prev(s: Seq<(u64, SpecConsensusState)>, h: u64) -> Option<SpecConsensusState>
    decreases s.len(),
{
    if s.len() == 0 {
        None
    } else if s.last().0 < h {
        Some(s.last().1)
    } else {
        spec_prev(s.drop_last(), h)
    }
}

/// The stored consensus state with the least height strictly above `h`.
pub open spec fn spec_next(s: Seq<(u64, SpecConsensusState)>, h: u64) -> Option<SpecConsensusState>
    decreases s.len(),
{
    if s.len() == 0 {
        None
    } else if s[0].0 > h {
        Some(s[0].1)
    } else {
        spec_next(s.drop_first(), h)
    }
}

/// Where a new key belongs in the sorted map: after all smaller keys.
pub open spec fn spec_insert_pos(s: Seq<(u64, SpecConsensusState)>, h: u64) -> int
    decreases s.len(),
{
    if s.len() == 0 {
        0
    } else if s[0].0 < h {
        1 + spec_insert_pos(s.drop_first(), h)
    } else {
        0
    }
}

impl ClientStore {
    /// The stored consensus state at exactly the given height.
    pub fn consensus_state_at(&self, h: u64) -> (r: Option<&ConsensusState>)
        ensures
            match r {
                Some(c) => spec_find(self@.consensus_states, h) == Some(c@),
                None => spec_find(self@.consensus_states, h) is None,
            },
    {
        let ghost full = self@.consensus_states;
        let mut i: usize = 0;
        assert(full.skip(0) =~= full);
        while i < self.consensus_states.len()
            invariant
                0 <= i <= self.consensus_states@.len(),
                full == cs_map_view(self.consensus_states@),
                spec_find(full, h) == spec_find(full.skip(i as int), h),
            decreases self.consensus_states@.len() - i,
        {
            assert(full[i as int] == (self.consensus_states@[i as int].0,
                self.consensus_states@[i as int].1@));
            assert(full.skip(i as int)[0] == full[i as int]);
            if self.consensus_states[i].0 == h {
                return Some(&self.consensus_states[i].1);
            }
            assert(full.skip(i as int).drop_first() =~= full.skip(i as int + 1));
            i += 1;
        }
        assert(full.skip(self.consensus_states@.len() as int).len() == 0);
        None
    }

    /// The stored consensus state with the greatest height strictly below
    /// `h`.
    pub fn prev_consensus_state(&self, h: u64) -> (r: Option<&ConsensusState>)
        ensures
            match r {
                Some(c) => spec_prev(self@.consensus_states, h) == Some(c@),
                None => spec_prev(self@.consensus_states, h) is None,
            },
    {
        let ghost full = self@.consensus_states;
        let mut j: usize = self.consensus_states.len();
        assert(full.take(self.consensus_states@.len() as int) =~= full);
        while j > 0
            invariant
                0 <= j <= self.consensus_states@.len(),
                full == cs_map_view(self.consensus_states@),
                spec_prev(full, h) == spec_prev(full.take(j as int), h),
            decreases j,
        {
            assert(full[j - 1] == (self.consensus_states@[j - 1].0,
                self.consensus_states@[j - 1].1@));
            assert(full.take(j as int).last() == full[j - 1]);
            if self.consensus_states[j - 1].0 < h {
                return Some(&self.consensus_states[j - 1].1);
            }
            assert(full.take(j as int).drop_last() =~= full.take(j as int - 1));
            j -= 1;
        }
        assert(full.take(0).len() == 0);
        None
    }

    /// The stored consensus state with the least height strictly above `h`.
    pub fn next_consensus_state(&self, h: u64) -> (r: Option<&ConsensusState>)
        ensures
            match r {
                Some(c) => spec_next(self@.consensus_states, h) == Some(c@),
                None => spec_next(self@.consensus_states, h) is None,
            },
    {
        let ghost full = self@.consensus_states;
        let mut i: usize = 0;
        assert(full.skip(0) =~= full);
        while i < self.consensus_states.len()
            invariant
                0 <= i <= self.consensus_states@.len(),
                full == cs_map_view(self.consensus_states@),
                spec_next(full, h) == spec_next(full.skip(i as int), h),
            decreases self.consensus_states@.len() - i,
        {
            assert(full[i as int] == (self.consensus_states@[i as int].0,
                self.consensus_states@[i as int].1@));
            assert(full.skip(i as int)[0] == full[i as int]);
            if self.consensus_states[i].0 > h {
                return Some(&self.consensus_states[i].1);
            }
            assert(full.skip(i as int).drop_first() =~= full.skip(i as int + 1));
            i += 1;
        }
        assert(full.skip(self.consensus_states@.len() as int).len() == 0);
        None
    }
}

// ---------------------------------------------------------------------------
// Lifecycle
// ---------------------------------------------------------------------------

/// What a successful update leaves in the store: nothing, when the height
/// is already present; otherwise a consensus state built over the header
/// with the producers the previous state knows for its epoch, the client
/// state advanced to the maximum height and the header's timestamp, and one
/// more update record.
pub open spec fn spec_update_state(
    s: SpecClientStore,
    h: SpecHeader,
    host_timestamp: u64,
    host_height: Height,
) -> SpecClientStore {
    if spec_find(s.consensus_states, h.height()) is Some {
        s
    } else {
        let bps = match spec_prev(s.consensus_states, h.height()) {
            Some(p) => p.spec_get_block_producers_of(h.epoch_id()),
            None => None,
        };
        let new_cs = SpecConsensusState {
            current_bps: bps,
            header: h,
            commitment_root: enc_hash_list(h.prev_state_root_of_chunks),
        };
        let header_height = Height { revision_number: 0, revision_height: h.height() };
        let new_latest = if s.client_state.latest_height.spec_lt(header_height) {
            header_height
        } else {
            s.client_state.latest_height
        };
        SpecClientStore {
            client_state: SpecClientState {
                latest_height: new_latest,
                latest_timestamp: h.timestamp(),
                ..s.client_state
            },
            consensus_states: s.consensus_states.insert(
                spec_insert_pos(s.consensus_states, h.height()),
                (h.height(), new_cs),
            ),
            update_log: s.update_log.push((h.height(), host_timestamp, host_height)),
        }
    }
}

impl ClientStore {
    /// Creates a client from its first client state and consensus state.
    /// A state with an empty commitment root or an already frozen client is
    /// rejected.
    pub fn initialise(client_state: ClientState, consensus_state: ConsensusState) -> (r: Result<
        ClientStore,
        Error,
    >)
        ensures
            match r {
                Ok(store) => store@ == (SpecClientStore {
                    client_state: client_state@,
                    consensus_states: seq![
                        (client_state@.latest_height.revision_height, consensus_state@),
                    ],
                    update_log: Seq::empty(),
                }) && store@.wf() && consensus_state@.commitment_root.len() > 0
                    && !client_state@.is_frozen(),
                Err(Error::EmptyCommitmentRoot) => consensus_state@.commitment_root.len() == 0,
                Err(Error::FrozenHeightNotAllowed) => consensus_state@.commitment_root.len() > 0
                    && client_state@.is_frozen(),
                Err(_) => false,
            },
    {
        if consensus_state.commitment_root.len() == 0 {
            return Err(Error::EmptyCommitmentRoot);
        }
        if client_state.is_frozen() {
            return Err(Error::FrozenHeightNotAllowed);
        }
        let key = client_state.latest_height.revision_height;
        let mut consensus_states: Vec<(u64, ConsensusState)> = Vec::new();
        consensus_states.push((key, consensus_state));
        let store = ClientStore { client_state, consensus_states, update_log: Vec::new() };
        assert(store@.consensus_states =~= seq![(key, store.consensus_states@[0].1@)]);
        Ok(store)
    }

    /// Installs a verified header: appends its consensus state — deriving
    /// the epoch's producers from the previous stored state — advances the
    /// latest height and timestamp, and records the host's clock and
    /// height. At an already stored height this is a no-op. Returns the
    /// header's height as the list of updated heights.
    pub fn update_state(
        &mut self,
        header: Header,
        host_timestamp: u64,
        host_height: Height,
    ) -> (r: Vec<Height>)
        requires
            old(self)@.wf(),
            hash_list_view(header.prev_state_root_of_chunks@).len() <= u32::MAX,
        ensures
            final(self)@ == spec_update_state(
                old(self)@,
                header@,
                host_timestamp,
                host_height,
            ),
            final(self)@.wf(),
            r@ == seq![Height { revision_number: 0, revision_height: header@.height() }],
    {
        let ghost s0 = self@;
        let header_height = header.height();
        let h = header.light_client_block.inner_lite.height;
        let mut updated_heights: Vec<Height> = Vec::new();
        updated_heights.push(header_height);
        assert(updated_heights@ =~= seq![
            Height { revision_number: 0, revision_height: header@.height() },
        ]);
        match self.consensus_state_at(h) {
            Some(_) => {
                // Already installed by a previous relayer: a no-op.
                return updated_heights;
            },
            None => {},
        }
        let current_bps = match self.prev_consensus_state(h) {
            Some(prev_cs) => prev_cs.get_block_producers_of(&header.epoch_id()),
            None => None,
        };
        let new_consensus_state = ConsensusState::new(current_bps, header);
        let new_client_state = match self.client_state.clone().with_header(
            &new_consensus_state.header,
        ) {
            Ok(c) => c,
            Err(_) => vstd::pervasive::unreached(),
        };
        let new_client_state = new_client_state.with_timestamp(
            new_consensus_state.header.raw_timestamp(),
        );
        self.update_log.push((h, host_timestamp, host_height));
        let pos = self.insert_position(h);
        self.consensus_states.insert(pos, (h, new_consensus_state));
        self.client_state = new_client_state;
        proof {
            let inserted = s0.consensus_states.insert(
                spec_insert_pos(s0.consensus_states, h),
                (h, self.consensus_states@[pos as int].1@),
            );
            assert(self@.consensus_states =~= inserted);
            assert(spec_keys_sorted(self@.consensus_states)) by {
                let s = s0.consensus_states;
                let p = spec_insert_pos(s, h);
                lemma_insert_pos_bounds(s, h);
                lemma_insert_pos_splits(s, h);
                assert(spec_find(s, h) is None);
                lemma_find_none_means_key_absent(s, h);
                assert forall|i: int, j: int|
                    0 <= i < j < inserted.len() implies (#[trigger] inserted[i]).0 < (
                #[trigger] inserted[j]).0 by {
                    if i < p && j < p {
                    } else if i >= p + 1 && j >= p + 1 {
                    } else if j == p {
                        assert(inserted[i] == s[i] && s[i].0 < h);
                    } else if i == p {
                        assert(inserted[j] == s[j - 1] && s[j - 1].0 >= h && s[j - 1].0 != h);
                    } else {
                        assert(inserted[i] == s[i] && s[i].0 < h);
                        assert(inserted[j] == s[j - 1] && s[j - 1].0 >= h && s[j - 1].0 != h);
                    }
                }
            }
        }
        updated_heights
    }

    /// Where the new key belongs in the sorted map.
    fn insert_position(&self, h: u64) -> (r: usize)
        requires
            self@.wf(),
        ensures
            r == spec_insert_pos(self@.consensus_states, h),
            r <= self.consensus_states@.len(),
    {
        let ghost full = self@.consensus_states;
        let mut i: usize = 0;
        assert(full.skip(0) =~= full);
        while i < self.consensus_states.len()
            invariant
                0 <= i <= self.consensus_states@.len(),
                full == cs_map_view(self.consensus_states@),
                spec_insert_pos(full, h) == i + spec_insert_pos(full.skip(i as int), h),
            decreases self.consensus_states@.len() - i,
        {
            assert(full[i as int] == (self.consensus_states@[i as int].0,
                self.consensus_states@[i as int].1@));
            assert(full.skip(i as int)[0] == full[i as int]);
            if self.consensus_states[i].0 >= h {
                return i;
            }
            assert(full.skip(i as int).drop_first() =~= full.skip(i as int + 1));
            i += 1;
        }
        assert(full.skip(self.consensus_states@.len() as int).len() == 0);
        i
    }

    /// Freezes the client unconditionally: misbehaviour was established, so
    /// no further updates may convince this client.
    pub fn update_state_on_misbehaviour(&mut self)
        ensures
            final(self)@ == (SpecClientStore {
                client_state: SpecClientState {
                    frozen_height: Some(Height { revision_number: 0, revision_height: 0 }),
                    ..old(self)@.client_state
                },
                ..old(self)@
            }),
    {
        let frozen = self.client_state.clone().with_frozen_height(
            Height { revision_number: 0, revision_height: 0 },
        );
        self.client_state = frozen;
    }

    /// The status of the client at the host's clock reading `now`:
    /// frozen once marked; expired without a consensus state at the latest
    /// height or once that state outlives the trusting period; active
    /// otherwise.
    pub fn status(&self, now: u64) -> (r: Status)
        ensures
            r == spec_status(
                self@.client_state,
                spec_find(self@.consensus_states, self@.client_state.latest_height.revision_height),
                now,
            ),
    {
        let latest = self.consensus_state_at(self.client_state.latest_height.revision_height);
        self.client_state.status(latest, now)
    }

    /// Checks a candidate update header against the latest stored consensus
    /// state.
    pub fn verify_header(&self, header: &Header) -> (r: Result<(), Error>)
        requires
            spec_opt_validator_list_wf(header@.light_client_block.next_bps),
        ensures
            r == match spec_find(
                self@.consensus_states,
                self@.client_state.latest_height.revision_height,
            ) {
                None => Err::<(), Error>(Error::ConsensusStateNotFound),
                Some(latest) => spec_verify_header(latest, header@),
            },
    {
        match self.consensus_state_at(self.client_state.latest_height.revision_height) {
            None => Err(Error::ConsensusStateNotFound),
            Some(latest) => self.client_state.verify_header(latest, header),
        }
    }

    /// Checks both headers of submitted misbehaviour evidence against the
    /// latest stored consensus state.
    pub fn verify_misbehaviour(&self, misbehaviour: &Misbehaviour) -> (r: Result<(), Error>)
        requires
            spec_opt_validator_list_wf(misbehaviour@.header1.light_client_block.next_bps),
            spec_opt_validator_list_wf(misbehaviour@.header2.light_client_block.next_bps),
        ensures
            r == match spec_find(
                self@.consensus_states,
                self@.client_state.latest_height.revision_height,
            ) {
                None => Err::<(), Error>(Error::ConsensusStateNotFound),
                Some(latest) => match spec_verify_header(latest, misbehaviour@.header1) {
                    Err(e) => Err::<(), Error>(e),
                    Ok(_) => spec_verify_header(latest, misbehaviour@.header2),
                },
            },
    {
        match self.consensus_state_at(self.client_state.latest_height.revision_height) {
            None => Err(Error::ConsensusStateNotFound),
            Some(latest) => self.client_state.verify_misbehaviour(latest, misbehaviour),
        }
    }

    /// Whether a candidate update header is evidence of misbehaviour
    /// against what the store already holds.
    pub fn check_for_misbehaviour_update_client(&self, header: &Header) -> (r: bool)
        ensures
            r == spec_misbehaviour_on_update(
                self@.client_state,
                header@,
                spec_find(self@.consensus_states, header@.height()),
                spec_prev(self@.consensus_states, header@.height()),
                spec_next(self@.consensus_states, header@.height()),
            ),
    {
        let h = header.light_client_block.inner_lite.height;
        let existing = self.consensus_state_at(h);
        let prev = self.prev_consensus_state(h);
        let next = self.next_consensus_state(h);
        self.client_state.check_for_misbehaviour_update_client(existing, prev, next, header)
    }

    /// Whether submitted misbehaviour evidence is genuine.
    pub fn check_for_misbehaviour_misbehaviour(&self, misbehaviour: &Misbehaviour) -> (r: Result<
        bool,
        Error,
    >)
        ensures
            r == Ok::<bool, Error>(spec_misbehaviour_header_pair(misbehaviour@)),
    {
        self.client_state.check_for_misbehaviour_misbehaviour(misbehaviour)
    }
}

// ---------------------------------------------------------------------------
// Facts about the sorted map
// ---------------------------------------------------------------------------

/// The insert position lies within the map.
pub proof fn lemma_insert_pos_bounds(s: Seq<(u64, SpecConsensusState)>, h: u64)
    ensures
        0 <= spec_insert_pos(s, h) <= s.len(),
    decreases s.len(),
{
    if s.len() > 0 && s[0].0 < h {
        lemma_insert_pos_bounds(s.drop_first(), h);
    }
}

/// Everything before the insert position has a smaller key; everything from
/// it on does not.
pub proof fn lemma_insert_pos_splits(s: Seq<(u64, SpecConsensusState)>, h: u64)
    requires
        spec_keys_sorted(s),
    ensures
        forall|i: int| 0 <= i < spec_insert_pos(s, h) ==> (#[trigger] s[i]).0 < h,
        forall|i: int| spec_insert_pos(s, h) <= i < s.len() ==> (#[trigger] s[i]).0 >= h,
    decreases s.len(),
{
    if s.len() == 0 {
    } else {
        let rest = s.drop_first();
        assert(spec_keys_sorted(rest)) by {
            assert forall|i: int, j: int|
                0 <= i < j < rest.len() implies (#[trigger] rest[i]).0 < (#[trigger] rest[j]).0 by {
                assert(rest[i] == s[i + 1] && rest[j] == s[j + 1]);
            }
        }
        lemma_insert_pos_splits(rest, h);
        lemma_insert_pos_bounds(rest, h);
        lemma_insert_pos_bounds(s, h);
        let p = spec_insert_pos(s, h);
        if s[0].0 < h {
            assert forall|i: int| 0 <= i < p implies (#[trigger] s[i]).0 < h by {
                if i > 0 {
                    assert(s[i] == rest[i - 1]);
                }
            }
            assert forall|i: int| p <= i < s.len() implies (#[trigger] s[i]).0 >= h by {
                assert(s[i] == rest[i - 1]);
            }
        } else {
            assert forall|i: int| 0 <= i < s.len() implies (#[trigger] s[i]).0 >= h by {
                if i > 0 {
                    assert(s[0].0 < s[i].0);
                }
            }
        }
    }
}

/// A height that `spec_find` misses is on no key of the map.
pub proof fn lemma_find_none_means_key_absent(s: Seq<(u64, SpecConsensusState)>, h: u64)
    requires
        spec_find(s, h) is None,
    ensures
        forall|i: int| 0 <= i < s.len() ==> (#[trigger] s[i]).0 != h,
    decreases s.len(),
{
    if s.len() > 0 {
        lemma_find_none_means_key_absent(s.drop_first(), h);
        assert(forall|i: int|
            0 < i < s.len() ==> (#[trigger] s[i]).0 == s.drop_first()[i - 1].0);
    }
}

} // verus!
