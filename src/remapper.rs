//! The plan: discovery and placement of everything the chosen chains reach.
use vstd::prelude::*;

use crate::discovery::{
    closed_under, eq_accounted, eq_ref_processed, exhausted, lemma_covers_step_mono, must_eq,
    must_instrument, must_table, phrase_played, played_phrases, reached_eqs, reached_free_tables,
    reached_instruments, reached_tables, refs_in, root_chains, row_refs_in,
    InstrumentAllocatorState,
};
use crate::mapping::{
    classifies, eq_command_names, find_indices, identity_mapping, instrument_command_names,
    moves_in_range, moves_of, remap_chain, remap_instrument, remap_phrase, table_command_names,
    AllocationError, ChainMapping, EqMapping, InstrumentMapping, MoveKind, PhraseMapping,
    RemapperDescriptorBuilder, TableMapping,
};
use crate::placement::{
    accounted, copy_slot, copy_slots, count_true, lemma_account_new, lemma_accounted_frame,
    lemma_exhausted, lemma_policy_frame, lemma_policy_new, lemma_no_room, lemma_none_in_use,
    lemma_place, lemma_placed, lemma_push_contains, lemma_reuse, lemma_taken_by_step,
    lemma_unseen_count, placed, placement_inv, policy_placed, taken_by, unseen,
};
use crate::slots::{
    chain_occupancy, empty_destination, eq_occupancy, find_referenced_chains,
    find_referenced_phrases, instrument_occupancy, phrase_occupancy, table_occupancy, try_allocate,
};
use crate::song::{
    spec_instrument_eq_count, Chain, ChainStep, Fx, N_CHAINS, N_INSTRUMENTS, N_PHRASES, N_TABLES,
    Phrase, PhraseStep, Song, SongModel,
};
use crate::version::Version;

verus! {

/// Error `e` is owed when copying the chains `roots` of `from` into `to`,
/// with the command codes that the command-name table `names` gives: the kind
/// it names ran out of slots (see `exhausted`).
pub open spec fn error_owed(from: SongModel, to: SongModel, names: Seq<String>, roots: Seq<u8>, e: AllocationError) -> bool {
    exists|ic: Seq<u8>, tc: Seq<u8>, ec: Seq<u8>|
        classifies(ic, names, instrument_command_names()) && classifies(tc, names, table_command_names())
            && classifies(ec, names, eq_command_names()) && #[trigger] exhausted(from, to, roots, ic, tc, ec, e)
}

/// A phrase or chain named by error `e` has no equal in a slot of `to` in
/// use, once the entities it refers to are placed (by some placement).
pub open spec fn no_equal_in_use(from: SongModel, to: SongModel, e: AllocationError) -> bool {
    match e.kind {
        MoveKind::PHR => exists|im: InstrumentMapping, tm: TableMapping, em: EqMapping|
            #[trigger] phrase_unmatched(from, to, e.index as int, im, tm, em),
        MoveKind::CHN => exists|pm: PhraseMapping| #[trigger] chain_unmatched(from, to, e.index as int, pm),
        _ => true,
    }
}

/// No phrase in use in `to` equals phrase `p` of `from` rewritten.
pub open spec fn phrase_unmatched(from: SongModel, to: SongModel, p: int, im: InstrumentMapping, tm: TableMapping, em: EqMapping) -> bool {
    forall|j: int| 0 <= j < N_PHRASES && #[trigger] phrase_occupancy(to)[j] ==> to.phrases[j] != remap_phrase(from.phrases[p], im, tm, em)
}

/// No chain in use in `to` equals chain `c` of `from` rewritten.
pub open spec fn chain_unmatched(from: SongModel, to: SongModel, c: int, pm: PhraseMapping) -> bool {
    forall|j: int| 0 <= j < N_CHAINS && #[trigger] chain_occupancy(to)[j] ==> to.chains[j] != remap_chain(from.chains[c], pm)
}

/// The destination has, for every kind, at least as many free slots as there
/// are entities of that kind that the roots reach.
pub open spec fn room_for(from: SongModel, to: SongModel, names: Seq<String>, roots: Seq<u8>) -> bool {
    &&& forall|ic: Seq<u8>, tc: Seq<u8>, ec: Seq<u8>|
        classifies(ic, names, instrument_command_names()) && classifies(tc, names, table_command_names())
            && classifies(ec, names, eq_command_names()) ==> {
            &&& count_true(#[trigger] reached_eqs(from, roots, ic, tc, ec))
                <= unseen(eq_occupancy(to, spec_instrument_eq_count(to.version)))
            &&& count_true(reached_instruments(from, roots, ic, tc, ec)) <= unseen(instrument_occupancy(to))
            &&& count_true(reached_free_tables(from, roots, ic, tc, ec)) <= unseen(table_occupancy(to))
        }
    &&& count_true(played_phrases(from, roots)) <= unseen(phrase_occupancy(to))
    &&& count_true(root_chains(roots)) <= unseen(chain_occupancy(to))
}

/// Row `q` of the phrase played at row `s` of root chain `roots[k]` exists.
pub open spec fn is_root_row(from: SongModel, roots: Seq<u8>, k: int, s: int, q: int) -> bool {
    &&& 0 <= k < roots.len()
    &&& roots[k] < N_CHAINS
    &&& 0 <= s < from.chains[roots[k] as int].len()
    &&& from.chains[roots[k] as int][s].phrase < N_PHRASES
    &&& 0 <= q < from.phrases[from.chains[roots[k] as int][s].phrase as int].len()
}

/// Row `q` of the phrase played at row `s` of root chain `roots[k]`.
pub open spec fn root_row(from: SongModel, roots: Seq<u8>, k: int, s: int, q: int) -> PhraseStep {
    from.phrases[from.chains[roots[k] as int][s].phrase as int][q]
}

/// The five mappings of one plan.
pub struct Remapper {
    pub eq_mapping: EqMapping,
    pub instrument_mapping: InstrumentMapping,
    pub table_mapping: TableMapping,
    pub phrase_mapping: PhraseMapping,
    pub chain_mapping: ChainMapping,
}

impl Remapper {
    /// The plan holds a mapping of the right size for every kind of `from`, and
    /// places what it copies in distinct slots that were free in `to`.
    pub open spec fn valid_for(&self, from: SongModel, to: SongModel) -> bool {
        &&& from.wf()
        &&& to.wf()
        &&& self.eq_mapping.mapping@.len() == spec_instrument_eq_count(from.version)
        &&& self.instrument_mapping.mapping@.len() == N_INSTRUMENTS
        &&& self.table_mapping.mapping@.len() == N_TABLES
        &&& self.phrase_mapping.mapping@.len() == N_PHRASES
        &&& self.chain_mapping.mapping@.len() == N_CHAINS
        &&& placed(self.eq_mapping.mapping@, self.eq_mapping.to_move@, eq_occupancy(to, spec_instrument_eq_count(to.version)))
        &&& placed(self.instrument_mapping.mapping@, self.instrument_mapping.to_move@, instrument_occupancy(to))
        &&& placed(self.table_mapping.mapping@, self.table_mapping.to_move@, table_occupancy(to))
        &&& placed(self.phrase_mapping.mapping@, self.phrase_mapping.to_move@, phrase_occupancy(to))
        &&& placed(self.chain_mapping.mapping@, self.chain_mapping.to_move@, chain_occupancy(to))
    }

    /// The rewritten form of phrase `p` of `from` under this plan.
    pub open spec fn phrase_target(&self, from: SongModel, p: int) -> Seq<PhraseStep> {
        remap_phrase(from.phrases[p], self.instrument_mapping, self.table_mapping, self.eq_mapping)
    }

    /// The rewritten form of chain `c` of `from` under this plan.
    pub open spec fn chain_target(&self, from: SongModel, c: int) -> Seq<ChainStep> {
        remap_chain(from.chains[c], self.phrase_mapping)
    }

    /// Every phrase that a root chain plays, and every root chain, is accounted for.
    pub open spec fn covers_roots(&self, from: SongModel, to: SongModel, roots: Seq<u8>) -> bool {
        &&& forall|k: int, s: int|
            0 <= k < roots.len() && roots[k] < N_CHAINS && 0 <= s < from.chains[roots[k] as int].len()
                && #[trigger] from.chains[roots[k] as int][s].phrase < N_PHRASES ==> accounted(
                to.phrases,
                self.phrase_target(from, from.chains[roots[k] as int][s].phrase as int),
                self.phrase_mapping.mapping@,
                self.phrase_mapping.to_move@,
                from.chains[roots[k] as int][s].phrase as int,
            )
        &&& forall|k: int|
            0 <= k < roots.len() && #[trigger] roots[k] < N_CHAINS ==> accounted(
                to.chains,
                self.chain_target(from, roots[k] as int),
                self.chain_mapping.mapping@,
                self.chain_mapping.to_move@,
                roots[k] as int,
            )
    }

    /// The command codes of each kind are those that `names` gives the
    /// reference commands of that kind.
    pub open spec fn classified_by(&self, names: Seq<String>) -> bool {
        &&& classifies(self.instrument_mapping.instrument_tracking_commands@, names, instrument_command_names())
        &&& classifies(self.table_mapping.table_tracking_commands@, names, table_command_names())
        &&& classifies(self.eq_mapping.eq_tracking_commands@, names, eq_command_names())
    }

    /// Command `fx` refers only to entities of the sets `fi`, `ft`, `fe`
    /// (instruments, tables, equalizers), as far as it refers to any.
    pub open spec fn fx_in(&self, fx: Fx, fi: Seq<bool>, ft: Seq<bool>, fe: Seq<bool>) -> bool {
        &&& (self.instrument_mapping.instrument_tracking_commands@.contains(fx.command) && (fx.value as int) < N_INSTRUMENTS)
            ==> fi[fx.value as int]
        &&& (self.table_mapping.table_tracking_commands@.contains(fx.command) && (fx.value as int) < N_TABLES)
            ==> ft[fx.value as int]
        &&& (self.eq_mapping.eq_tracking_commands@.contains(fx.command) && (fx.value as int) < fe.len())
            ==> fe[fx.value as int]
    }

    /// Phrase row `st` refers only to entities of the sets.
    pub open spec fn row_in(&self, st: PhraseStep, fi: Seq<bool>, ft: Seq<bool>, fe: Seq<bool>) -> bool {
        &&& (st.instrument as int) < N_INSTRUMENTS ==> fi[st.instrument as int]
        &&& self.fx_in(st.fx1, fi, ft, fe)
        &&& self.fx_in(st.fx2, fi, ft, fe)
        &&& self.fx_in(st.fx3, fi, ft, fe)
    }

    /// The sets `fi`, `ft`, `fe` of instruments, tables and equalizers of
    /// `from` hold everything the phrases of the root chains refer to and are
    /// closed under references (an instrument brings its table and its
    /// equalizer, a table the targets of its commands). Each instrument in
    /// them is copied, or found equal (its equalizer rewritten) in `to`; each
    /// equalizer is copied or found equal in an addressable slot of `to`;
    /// each table not bound to an instrument is copied.
    pub open spec fn reach_closed(
        &self,
        from: SongModel,
        to: SongModel,
        roots: Seq<u8>,
        fi: Seq<bool>,
        ft: Seq<bool>,
        fe: Seq<bool>,
    ) -> bool {
        &&& fi.len() == N_INSTRUMENTS
        &&& ft.len() == N_TABLES
        &&& fe.len() == self.eq_mapping.mapping@.len()
        &&& forall|k: int, s: int, q: int| is_root_row(from, roots, k, s, q)
            ==> self.row_in(#[trigger] root_row(from, roots, k, s, q), fi, ft, fe)
        &&& forall|i: int| 0 <= i < N_INSTRUMENTS && #[trigger] fi[i] ==> {
            &&& ft[i]
            &&& eq_ref_processed(from.instruments[i], fe)
            &&& accounted(to.instruments, remap_instrument(from.instruments[i], self.eq_mapping),
                self.instrument_mapping.mapping@, self.instrument_mapping.to_move@, i)
        }
        &&& forall|t: int| 0 <= t < N_TABLES && #[trigger] ft[t] ==> {
            &&& forall|q: int| 0 <= q < from.tables[t].len() ==> self.fx_in(#[trigger] from.tables[t][q].fx1, fi, ft, fe)
                && self.fx_in(from.tables[t][q].fx2, fi, ft, fe) && self.fx_in(from.tables[t][q].fx3, fi, ft, fe)
            &&& t >= N_INSTRUMENTS ==> self.table_mapping.to_move@.contains(t as u8)
        }
        &&& forall|e: int| 0 <= e < fe.len() && #[trigger] fe[e] ==> eq_accounted(from, to,
            self.eq_mapping.mapping@, self.eq_mapping.to_move@, e)
    }

    /// Every copied instrument, table, phrase and chain got the slot that the
    /// forward policy picks from its own index, and every copied equalizer the
    /// slot the backward policy picks (or its own index, for the equalizer of
    /// the instrument of that number), in a state the pass went through.
    pub open spec fn placed_forward(&self, from: SongModel, to: SongModel, roots: Seq<u8>) -> bool {
        let ic = self.instrument_mapping.instrument_tracking_commands@;
        let tc = self.table_mapping.table_tracking_commands@;
        let ec = self.eq_mapping.eq_tracking_commands@;
        &&& forall|q: int| 0 <= q < self.instrument_mapping.to_move@.len() ==> #[trigger] policy_placed(
            instrument_occupancy(to), self.instrument_mapping.mapping@, self.instrument_mapping.to_move@,
            reached_instruments(from, roots, ic, tc, ec), q, false)
        &&& forall|q: int| 0 <= q < self.eq_mapping.to_move@.len() ==> #[trigger] policy_placed(
            eq_occupancy(to, spec_instrument_eq_count(to.version)), self.eq_mapping.mapping@, self.eq_mapping.to_move@,
            reached_eqs(from, roots, ic, tc, ec), q, true)
        &&& forall|q: int| 0 <= q < self.table_mapping.to_move@.len() ==> #[trigger] policy_placed(
            table_occupancy(to), self.table_mapping.mapping@, self.table_mapping.to_move@,
            reached_tables(from, roots, ic, tc, ec), q, false)
        &&& forall|q: int| 0 <= q < self.phrase_mapping.to_move@.len() ==> #[trigger] policy_placed(
            phrase_occupancy(to), self.phrase_mapping.mapping@, self.phrase_mapping.to_move@, played_phrases(from, roots), q, false)
        &&& forall|q: int| 0 <= q < self.chain_mapping.to_move@.len() ==> #[trigger] policy_placed(
            chain_occupancy(to), self.chain_mapping.mapping@, self.chain_mapping.to_move@, root_chains(roots), q, false)
    }

    /// The plan copies only what the roots reach, and every entity of `from`
    /// that the roots do not reach keeps its own index.
    pub open spec fn only_reached(&self, from: SongModel, roots: Seq<u8>) -> bool {
        let ic = self.instrument_mapping.instrument_tracking_commands@;
        let tc = self.table_mapping.table_tracking_commands@;
        let ec = self.eq_mapping.eq_tracking_commands@;
        &&& forall|i: int| 0 <= i < N_INSTRUMENTS && !must_instrument(from, roots, ic, tc, ec, i)
            ==> #[trigger] self.instrument_mapping.mapping@[i] == i as u8
        &&& forall|k: int| 0 <= k < self.instrument_mapping.to_move@.len()
            ==> must_instrument(from, roots, ic, tc, ec, #[trigger] self.instrument_mapping.to_move@[k] as int)
        &&& forall|t: int| 0 <= t < N_TABLES && !must_table(from, roots, ic, tc, ec, t)
            ==> #[trigger] self.table_mapping.mapping@[t] == t as u8
        &&& forall|k: int| 0 <= k < self.table_mapping.to_move@.len()
            ==> must_table(from, roots, ic, tc, ec, #[trigger] self.table_mapping.to_move@[k] as int)
        &&& forall|e: int| 0 <= e < self.eq_mapping.mapping@.len() && !must_eq(from, roots, ic, tc, ec, e)
            ==> #[trigger] self.eq_mapping.mapping@[e] == e as u8
        &&& forall|k: int| 0 <= k < self.eq_mapping.to_move@.len()
            ==> must_eq(from, roots, ic, tc, ec, #[trigger] self.eq_mapping.to_move@[k] as int)
        &&& forall|p: int| 0 <= p < N_PHRASES && !phrase_played(from, roots, p)
            ==> #[trigger] self.phrase_mapping.mapping@[p] == p as u8
        &&& forall|k: int| 0 <= k < self.phrase_mapping.to_move@.len()
            ==> phrase_played(from, roots, #[trigger] self.phrase_mapping.to_move@[k] as int)
        &&& forall|c: int| 0 <= c < N_CHAINS && !roots.contains(c as u8)
            ==> #[trigger] self.chain_mapping.mapping@[c] == c as u8
        &&& forall|k: int| 0 <= k < self.chain_mapping.to_move@.len() ==> roots.contains(#[trigger] self.chain_mapping.to_move@[k])
    }

    /// A plan that moves nothing, for a song of version `ver` whose command-name table is `names`.
    pub fn default_ver(ver: Version, names: &Vec<String>) -> (r: Self)
        requires
            names@.len() <= 256,
        ensures
            r.classified_by(names@),
            r.eq_mapping.mapping@ == identity_mapping(spec_instrument_eq_count(ver)),
            r.instrument_mapping.mapping@ == identity_mapping(N_INSTRUMENTS as nat),
            r.table_mapping.mapping@ == identity_mapping(N_TABLES as nat),
            r.phrase_mapping.mapping@ == identity_mapping(N_PHRASES as nat),
            r.chain_mapping.mapping@ == identity_mapping(N_CHAINS as nat),
            r.eq_mapping.to_move@.len() == 0,
            r.instrument_mapping.to_move@.len() == 0,
            r.table_mapping.to_move@.len() == 0,
            r.phrase_mapping.to_move@.len() == 0,
            r.chain_mapping.to_move@.len() == 0,
    {
        proof {
            reveal_strlit("INS");
            reveal_strlit("NXT");
            reveal_strlit("TBX");
            reveal_strlit("TBL");
            assert("INS"@ =~= instrument_command_names().0);
            assert("NXT"@ =~= instrument_command_names().1);
            assert("TBX"@ =~= table_command_names().0);
            assert("TBL"@ =~= table_command_names().1);
        }
        let instrument_tracking_commands = find_indices(names, "INS", "NXT");
        let table_tracking_commands = find_indices(names, "TBX", "TBL");
        Self {
            eq_mapping: EqMapping::default_ver(ver, names),
            instrument_mapping: InstrumentMapping::new(instrument_tracking_commands),
            table_mapping: TableMapping::new(table_tracking_commands),
            phrase_mapping: PhraseMapping::default(),
            chain_mapping: ChainMapping::default(),
        }
    }

    /// Reports every entity to be copied, kind by kind: equalizers,
    /// instruments, tables, phrases, chains.
    pub fn describe<T: RemapperDescriptorBuilder>(&self, builder: &mut T)
        requires
            moves_in_range(self.eq_mapping.mapping@, self.eq_mapping.to_move@),
            moves_in_range(self.instrument_mapping.mapping@, self.instrument_mapping.to_move@),
            moves_in_range(self.table_mapping.mapping@, self.table_mapping.to_move@),
            moves_in_range(self.phrase_mapping.mapping@, self.phrase_mapping.to_move@),
            moves_in_range(self.chain_mapping.mapping@, self.chain_mapping.to_move@),
        ensures
            final(builder).log() == old(builder).log() + moves_of(MoveKind::EQ, self.eq_mapping.mapping@, self.eq_mapping.to_move@)
                + moves_of(MoveKind::INS, self.instrument_mapping.mapping@, self.instrument_mapping.to_move@)
                + moves_of(MoveKind::TBL, self.table_mapping.mapping@, self.table_mapping.to_move@)
                + moves_of(MoveKind::PHR, self.phrase_mapping.mapping@, self.phrase_mapping.to_move@)
                + moves_of(MoveKind::CHN, self.chain_mapping.mapping@, self.chain_mapping.to_move@),
    {
        self.eq_mapping.describe(builder);
        self.instrument_mapping.describe(builder);
        self.table_mapping.describe(builder);
        self.phrase_mapping.describe(builder);
        self.chain_mapping.describe(builder);
    }

    /// The report of every kind, equalizers, instruments, phrases, chains,
    /// then tables, each followed by an empty line but the last.
    pub fn print(&self) -> (r: String)
        requires
            moves_in_range(self.eq_mapping.mapping@, self.eq_mapping.to_move@),
            moves_in_range(self.instrument_mapping.mapping@, self.instrument_mapping.to_move@),
            moves_in_range(self.table_mapping.mapping@, self.table_mapping.to_move@),
            moves_in_range(self.phrase_mapping.mapping@, self.phrase_mapping.to_move@),
            moves_in_range(self.chain_mapping.mapping@, self.chain_mapping.to_move@),
        ensures
            r@ == self.eq_mapping.print_spec() + seq!['\n'] + self.instrument_mapping.print_spec() + seq!['\n']
                + self.phrase_mapping.print_spec() + seq!['\n'] + self.chain_mapping.print_spec() + seq!['\n']
                + self.table_mapping.print_spec(),
    {
        proof {
            reveal_strlit("\n");
        }
        let mut acc = self.eq_mapping.print();
        acc.append("\n");
        acc.append(self.instrument_mapping.print().as_str());
        acc.append("\n");
        acc.append(self.phrase_mapping.print().as_str());
        acc.append("\n");
        acc.append(self.chain_mapping.print().as_str());
        acc.append("\n");
        acc.append(self.table_mapping.print().as_str());
        acc
    }

    /// Destination index of source chain `chain_id`.
    pub fn out_chain(&self, chain_id: u8) -> (r: u8)
        requires
            (chain_id as int) < self.chain_mapping.mapping@.len(),
        ensures
            r == self.chain_mapping.mapping@[chain_id as int],
    {
        self.chain_mapping.mapping[chain_id as usize]
    }

    /// Processes every instrument, table and equalizer that the phrases of the root chains reach.
    fn allocate_eq_and_instruments(
        from_song: &Song,
        to_song: &Song,
        names: &Vec<String>,
        from_chains_ids: &Vec<u8>,
    ) -> (r: Result<InstrumentAllocatorState, AllocationError>)
        requires
            from_song@.wf(),
            to_song@.wf(),
            names@.len() <= 256,
        ensures
            r matches Ok(st) ==> {
                &&& st.wf(from_song@, to_song@)
                &&& classifies(st.instrument_mapping.instrument_tracking_commands@, names@, instrument_command_names())
                &&& classifies(st.table_mapping.table_tracking_commands@, names@, table_command_names())
                &&& classifies(st.eq_mapping.eq_tracking_commands@, names@, eq_command_names())
                &&& st.roots@ == from_chains_ids@
                &&& forall|i: int| 0 <= i < N_INSTRUMENTS ==> !#[trigger] st.seen_instruments@[i]
                &&& forall|i: int| 0 <= i < N_TABLES ==> !#[trigger] st.seen_tables@[i]
                &&& forall|k: int, s: int, q: int| is_root_row(from_song@, from_chains_ids@, k, s, q)
                    ==> st.covers_step(#[trigger] root_row(from_song@, from_chains_ids@, k, s, q))
            },
            empty_destination(from_song@, to_song@) ==> r is Ok,
            r matches Err(e) ==> error_owed(from_song@, to_song@, names@, from_chains_ids@, e),
            r matches Err(e) ==> e.kind == MoveKind::EQ || e.kind == MoveKind::INS || e.kind == MoveKind::TBL,
    {
        let plan = Remapper::default_ver(from_song.version, names);
        let mut alloc_state = InstrumentAllocatorState::new(
            from_song,
            to_song,
            from_chains_ids,
            plan.instrument_mapping,
            plan.table_mapping,
            plan.eq_mapping,
        );
        let ghost start = alloc_state;
        let ghost from = from_song@;
        let ghost roots = from_chains_ids@;
        let mut k: usize = 0;
        while k < from_chains_ids.len()
            invariant
                alloc_state.wf(from_song@, to_song@),
                alloc_state.same_commands(&start),
                alloc_state.seen_instruments@ == start.seen_instruments@,
                alloc_state.seen_tables@ == start.seen_tables@,
                classifies(start.instrument_mapping.instrument_tracking_commands@, names@, instrument_command_names()),
                classifies(start.table_mapping.table_tracking_commands@, names@, table_command_names()),
                classifies(start.eq_mapping.eq_tracking_commands@, names@, eq_command_names()),
                forall|i: int| 0 <= i < N_INSTRUMENTS ==> !#[trigger] start.seen_instruments@[i],
                forall|i: int| 0 <= i < N_TABLES ==> !#[trigger] start.seen_tables@[i],
                from == from_song@,
                roots == from_chains_ids@,
                alloc_state.roots@ == roots,
                k <= roots.len(),
                forall|k2: int, s2: int, q2: int| is_root_row(from, roots, k2, s2, q2) && k2 < k
                    ==> alloc_state.covers_step(#[trigger] root_row(from, roots, k2, s2, q2)),
            decreases from_chains_ids.len() - k,
        {
            let chain_id = from_chains_ids[k] as usize;
            if chain_id < N_CHAINS {
                let from_chain = &from_song.chains[chain_id];
                proof {
                    assert(from_chain@ == from.chains[chain_id as int]);
                }
                let mut s: usize = 0;
                while s < from_chain.steps.len()
                    invariant
                        alloc_state.wf(from_song@, to_song@),
                        alloc_state.same_commands(&start),
                        alloc_state.seen_instruments@ == start.seen_instruments@,
                        alloc_state.seen_tables@ == start.seen_tables@,
                        from == from_song@,
                        roots == from_chains_ids@,
                        alloc_state.roots@ == roots,
                        classifies(start.instrument_mapping.instrument_tracking_commands@, names@, instrument_command_names()),
                        classifies(start.table_mapping.table_tracking_commands@, names@, table_command_names()),
                        classifies(start.eq_mapping.eq_tracking_commands@, names@, eq_command_names()),
                        k < roots.len(),
                        chain_id == roots[k as int],
                        chain_id < N_CHAINS,
                        from_chain@ == from.chains[chain_id as int],
                        s <= from_chain.steps@.len(),
                        forall|k2: int, s2: int, q2: int| is_root_row(from, roots, k2, s2, q2) && (k2 < k || (k2 == k && s2 < s))
                            ==> alloc_state.covers_step(#[trigger] root_row(from, roots, k2, s2, q2)),
                    decreases from_chain.steps.len() - s,
                {
                    let phrase_id = from_chain.steps[s].phrase as usize;
                    if phrase_id < N_PHRASES {
                        let phrase = &from_song.phrases[phrase_id];
                        proof {
                            assert(phrase@ == from.phrases[phrase_id as int]);
                        }
                        let mut i: usize = 0;
                        while i < phrase.steps.len()
                            invariant
                                alloc_state.wf(from_song@, to_song@),
                                alloc_state.same_commands(&start),
                                alloc_state.seen_instruments@ == start.seen_instruments@,
                                alloc_state.seen_tables@ == start.seen_tables@,
                                from == from_song@,
                                roots == from_chains_ids@,
                                alloc_state.roots@ == roots,
                                classifies(start.instrument_mapping.instrument_tracking_commands@, names@, instrument_command_names()),
                                classifies(start.table_mapping.table_tracking_commands@, names@, table_command_names()),
                                classifies(start.eq_mapping.eq_tracking_commands@, names@, eq_command_names()),
                                k < roots.len(),
                                chain_id == roots[k as int],
                                chain_id < N_CHAINS,
                                from_chain@ == from.chains[chain_id as int],
                                s < from_chain@.len(),
                                phrase_id == from_chain@[s as int].phrase,
                                phrase_id < N_PHRASES,
                                phrase@ == from.phrases[phrase_id as int],
                                i <= phrase.steps@.len(),
                                forall|k2: int, s2: int, q2: int| is_root_row(from, roots, k2, s2, q2)
                                    && (k2 < k || (k2 == k && (s2 < s || (s2 == s && q2 < i))))
                                    ==> alloc_state.covers_step(#[trigger] root_row(from, roots, k2, s2, q2)),
                            decreases phrase.steps.len() - i,
                        {
                            let step = phrase.steps[i];
                            let ghost pre = alloc_state;
                            proof {
                                assert(step == root_row(from, roots, k as int, s as int, i as int));
                                lemma_root_row_reached(alloc_state, from, roots, k as int, s as int, i as int);
                            }
                            match alloc_state.touch_step(from_song, to_song, step) {
                                Ok(()) => {},
                                Err(e) => {
                                    proof {
                                        assert(exhausted(from, to_song@, roots, start.instrument_mapping.instrument_tracking_commands@,
                                            start.table_mapping.table_tracking_commands@, start.eq_mapping.eq_tracking_commands@, e));
                                    }
                                    return Err(e);
                                },
                            }
                            proof {
                                assert(step == root_row(from, roots, k as int, s as int, i as int));
                                assert forall|k2: int, s2: int, q2: int| is_root_row(from, roots, k2, s2, q2)
                                    && (k2 < k || (k2 == k && (s2 < s || (s2 == s && q2 < i + 1))))
                                    implies alloc_state.covers_step(#[trigger] root_row(from, roots, k2, s2, q2)) by {
                                    if !(k2 == k && s2 == s && q2 == i) {
                                        lemma_covers_step_mono(pre, alloc_state, root_row(from, roots, k2, s2, q2));
                                    }
                                }
                            }
                            i += 1;
                        }
                    }
                    s += 1;
                }
            }
            k += 1;
        }
        Ok(alloc_state)
    }
}

/// First phrase of `to` equal to `target` whose slot receives no copy (as
/// `copied` marks).
fn find_phrase(to: &Song, copied: &Vec<bool>, target: &Phrase) -> (r: Option<usize>)
    requires
        copied@.len() == to@.phrases.len(),
    ensures
        r matches Some(j) ==> j < to@.phrases.len() && !copied@[j as int] && to@.phrases[j as int] == target@
            && forall|i: int| 0 <= i < j && #[trigger] to@.phrases[i] == target@ ==> copied@[i],
        r is None ==> forall|i: int| 0 <= i < to@.phrases.len() && #[trigger] to@.phrases[i] == target@ ==> copied@[i],
{
    let mut j: usize = 0;
    while j < to.phrases.len()
        invariant
            j <= to.phrases@.len(),
            copied@.len() == to@.phrases.len(),
            forall|i: int| 0 <= i < j && #[trigger] to@.phrases[i] == target@ ==> copied@[i],
        decreases to.phrases.len() - j,
    {
        proof {
            assert(to@.phrases[j as int] == to.phrases@[j as int]@);
        }
        if !copied[j] && to.phrases[j].same_as(target) {
            return Some(j);
        }
        j += 1;
    }
    None
}

/// First chain of `to` equal to `target` whose slot receives no copy (as
/// `copied` marks).
fn find_chain(to: &Song, copied: &Vec<bool>, target: &Chain) -> (r: Option<usize>)
    requires
        copied@.len() == to@.chains.len(),
    ensures
        r matches Some(j) ==> j < to@.chains.len() && !copied@[j as int] && to@.chains[j as int] == target@
            && forall|i: int| 0 <= i < j && #[trigger] to@.chains[i] == target@ ==> copied@[i],
        r is None ==> forall|i: int| 0 <= i < to@.chains.len() && #[trigger] to@.chains[i] == target@ ==> copied@[i],
{
    let mut j: usize = 0;
    while j < to.chains.len()
        invariant
            j <= to.chains@.len(),
            copied@.len() == to@.chains.len(),
            forall|i: int| 0 <= i < j && #[trigger] to@.chains[i] == target@ ==> copied@[i],
        decreases to.chains.len() - j,
    {
        proof {
            assert(to@.chains[j as int] == to.chains@[j as int]@);
        }
        if !copied[j] && to.chains[j].same_as(target) {
            return Some(j);
        }
        j += 1;
    }
    None
}

/// Every phrase played by one of the first `k` roots (and by the first `s`
/// rows of root `k`) has been processed.
pub open spec fn phrases_seen(from: SongModel, roots: Seq<u8>, seen: Seq<bool>, k: int, s: int) -> bool {
    forall|k2: int, s2: int|
        0 <= k2 <= k && k2 < roots.len() && roots[k2] < N_CHAINS && 0 <= s2 < from.chains[roots[k2] as int].len()
            && (k2 < k || s2 < s) && #[trigger] from.chains[roots[k2] as int][s2].phrase < N_PHRASES
            ==> seen[from.chains[roots[k2] as int][s2].phrase as int]
}

/// Places every phrase that the root chains play.
fn allocate_phrases(
    from_song: &Song,
    to_song: &Song,
    instr_mapping: &InstrumentMapping,
    table_mapping: &TableMapping,
    eq_mapping: &EqMapping,
    from_chains_ids: &Vec<u8>,
) -> (r: Result<PhraseMapping, AllocationError>)
    requires
        from_song@.wf(),
        to_song@.wf(),
    ensures
        r matches Ok(pm) ==> {
            &&& pm.mapping@.len() == N_PHRASES
            &&& placed(pm.mapping@, pm.to_move@, phrase_occupancy(to_song@))
            &&& forall|k: int, s: int|
                0 <= k < from_chains_ids@.len() && from_chains_ids@[k] < N_CHAINS && 0 <= s
                    < from_song@.chains[from_chains_ids@[k] as int].len()
                    && #[trigger] from_song@.chains[from_chains_ids@[k] as int][s].phrase < N_PHRASES ==> accounted(
                    to_song@.phrases,
                    remap_phrase(
                        from_song@.phrases[from_song@.chains[from_chains_ids@[k] as int][s].phrase as int],
                        *instr_mapping,
                        *table_mapping,
                        *eq_mapping,
                    ),
                    pm.mapping@,
                    pm.to_move@,
                    from_song@.chains[from_chains_ids@[k] as int][s].phrase as int,
                )
        },
        r matches Ok(pm) ==> forall|q: int| 0 <= q < pm.to_move@.len() ==> #[trigger] policy_placed(
            phrase_occupancy(to_song@), pm.mapping@, pm.to_move@, played_phrases(from_song@, from_chains_ids@), q, false),
        r matches Ok(pm) ==> forall|p: int| 0 <= p < N_PHRASES && !phrase_played(from_song@, from_chains_ids@, p)
            ==> #[trigger] pm.mapping@[p] == p as u8,
        r matches Ok(pm) ==> forall|k: int| 0 <= k < pm.to_move@.len()
            ==> phrase_played(from_song@, from_chains_ids@, #[trigger] pm.to_move@[k] as int),
        r matches Err(e) ==> forall|j: int| 0 <= j < N_PHRASES && #[trigger] phrase_occupancy(to_song@)[j]
            ==> to_song@.phrases[j] != remap_phrase(from_song@.phrases[e.index as int], *instr_mapping, *table_mapping, *eq_mapping),
        r matches Err(e) ==> e.kind == MoveKind::PHR && e.index < N_PHRASES && phrase_played(from_song@, from_chains_ids@, e.index as int)
            && unseen(phrase_occupancy(to_song@)) < count_true(played_phrases(from_song@, from_chains_ids@)),
        empty_destination(from_song@, to_song@) ==> r is Ok,
{
    let ghost from = from_song@;
    let ghost to = to_song@;
    let ghost roots = from_chains_ids@;
    let mut allocated_phrases = find_referenced_phrases(to_song);
    let mut seen_phrase: Vec<bool> = vec![false; N_PHRASES];
    let mut phrase_mapping = PhraseMapping::default();
    proof {
        lemma_unseen_count(seen_phrase@.subrange(0, N_PHRASES as int), 0);
    }
    let mut k: usize = 0;
    while k < from_chains_ids.len()
        invariant
            from.wf(),
            to.wf(),
            from == from_song@,
            to == to_song@,
            roots == from_chains_ids@,
            k <= roots.len(),
            seen_phrase@.len() == N_PHRASES,
            forall|p: int| 0 <= p < N_PHRASES && #[trigger] seen_phrase@[p] ==> phrase_played(from, roots, p),
            forall|p: int| 0 <= p < N_PHRASES && !#[trigger] seen_phrase@[p] ==> phrase_mapping.mapping@[p] == p as u8,
            forall|j: int| 0 <= j < N_PHRASES && #[trigger] allocated_phrases@[j]
                ==> taken_by(phrase_occupancy(to), phrase_mapping.mapping@, seen_phrase@, j),
            forall|q: int| 0 <= q < phrase_mapping.to_move@.len()
                ==> #[trigger] policy_placed(phrase_occupancy(to), phrase_mapping.mapping@, phrase_mapping.to_move@, seen_phrase@, q, false),
            phrase_mapping.mapping@.len() == N_PHRASES,
            placement_inv(allocated_phrases@, phrase_occupancy(to), phrase_mapping.mapping@, phrase_mapping.to_move@, seen_phrase@, 0),
            forall|p: int| 0 <= p < N_PHRASES && #[trigger] seen_phrase@[p] ==> accounted(
                to.phrases,
                remap_phrase(from.phrases[p], *instr_mapping, *table_mapping, *eq_mapping),
                phrase_mapping.mapping@,
                phrase_mapping.to_move@,
                p,
            ),
            phrases_seen(from, roots, seen_phrase@, k as int, 0),
        decreases from_chains_ids.len() - k,
    {
        let chain_id = from_chains_ids[k] as usize;
        if chain_id < N_CHAINS {
            let from_chain = &from_song.chains[chain_id];
            proof {
                assert(from_chain@ == from.chains[chain_id as int]);
            }
            let mut s: usize = 0;
            while s < from_chain.steps.len()
                invariant
                    from.wf(),
                    to.wf(),
                    from == from_song@,
                    to == to_song@,
                    roots == from_chains_ids@,
                    k < roots.len(),
                    chain_id == roots[k as int],
                    chain_id < N_CHAINS,
                    from_chain@ == from.chains[chain_id as int],
                    s <= from_chain@.len(),
                    seen_phrase@.len() == N_PHRASES,
                    forall|p: int| 0 <= p < N_PHRASES && #[trigger] seen_phrase@[p] ==> phrase_played(from, roots, p),
                    forall|p: int| 0 <= p < N_PHRASES && !#[trigger] seen_phrase@[p] ==> phrase_mapping.mapping@[p] == p as u8,
                    forall|j: int| 0 <= j < N_PHRASES && #[trigger] allocated_phrases@[j]
                        ==> taken_by(phrase_occupancy(to), phrase_mapping.mapping@, seen_phrase@, j),
                    forall|q: int| 0 <= q < phrase_mapping.to_move@.len()
                        ==> #[trigger] policy_placed(phrase_occupancy(to), phrase_mapping.mapping@, phrase_mapping.to_move@, seen_phrase@, q, false),
                            phrase_mapping.mapping@.len() == N_PHRASES,
                    placement_inv(allocated_phrases@, phrase_occupancy(to), phrase_mapping.mapping@, phrase_mapping.to_move@, seen_phrase@, 0),
                    forall|p: int| 0 <= p < N_PHRASES && #[trigger] seen_phrase@[p] ==> accounted(
                        to.phrases,
                        remap_phrase(from.phrases[p], *instr_mapping, *table_mapping, *eq_mapping),
                        phrase_mapping.mapping@,
                        phrase_mapping.to_move@,
                        p,
                    ),
                    phrases_seen(from, roots, seen_phrase@, k as int, s as int),
                decreases from_chain.steps.len() - s,
            {
                let phrase_ix = from_chain.steps[s].phrase as usize;
                if phrase_ix < N_PHRASES && !seen_phrase[phrase_ix] {
                    let ghost seen0 = seen_phrase@;
                    let ghost map0 = phrase_mapping.mapping@;
                    let ghost tm0 = phrase_mapping.to_move@;
                    let ghost alloc0 = allocated_phrases@;
                    let phrase = from_song.phrases[phrase_ix].map_instruments(instr_mapping, table_mapping, eq_mapping);
                    proof {
                        assert(from_song.phrases@[phrase_ix as int]@ == from.phrases[phrase_ix as int]);
                        assert forall|q: int| 0 <= q < tm0.len() implies #[trigger] tm0[q] as int != phrase_ix by {}
                    }
                    let copied = copy_slots(&phrase_mapping.mapping, &phrase_mapping.to_move, N_PHRASES);
                    match find_phrase(to_song, &copied, &phrase) {
                        Some(known) => {
                            proof {
                                lemma_reuse(alloc0, phrase_occupancy(to), map0, tm0, seen0, phrase_ix as int, known as u8, 0);
                                assert forall|p: int| 0 <= p < N_PHRASES && p != phrase_ix && #[trigger] seen0[p] implies accounted(
                                    to.phrases,
                                    remap_phrase(from.phrases[p], *instr_mapping, *table_mapping, *eq_mapping),
                                    map0.update(phrase_ix as int, known as u8),
                                    tm0,
                                    p,
                                ) by {
                                    lemma_accounted_frame(to.phrases, remap_phrase(from.phrases[p], *instr_mapping, *table_mapping, *eq_mapping),
                                        map0, tm0, p, phrase_ix as int, known as u8, false, alloc0);
                                }
                                if tm0.contains(phrase_ix as u8) {
                                    let q = choose|q: int| 0 <= q < tm0.len() && tm0[q] == phrase_ix as u8;
                                    assert(tm0[q] as int != phrase_ix);
                                }
                                assert forall|i: int| 0 <= i < known && #[trigger] to.phrases[i] == phrase@
                                    implies copy_slot(map0, tm0, i) by {
                                    assert(copied@[i]);
                                }
                                assert(!copied@[known as int]);
                                lemma_account_new(to.phrases, phrase@, map0, tm0, phrase_ix as int, known as u8, false);
                                let map1 = map0.update(phrase_ix as int, known as u8);
                                let seen1 = seen0.update(phrase_ix as int, true);
                                assert forall|j: int| 0 <= j < N_PHRASES && #[trigger] alloc0.update(known as int, true)[j]
                                    implies taken_by(phrase_occupancy(to), map1, seen1, j) by {
                                    if j == known as int {
                                        assert(seen1[phrase_ix as int] && map1[phrase_ix as int] as int == j);
                                    } else {
                                        lemma_taken_by_step(phrase_occupancy(to), map0, seen0, phrase_ix as int, known as u8, j);
                                    }
                                }
                                assert forall|q: int| 0 <= q < tm0.len()
                                    implies #[trigger] policy_placed(phrase_occupancy(to), map1, tm0, seen1, q, false) by {
                                    lemma_policy_frame(phrase_occupancy(to), map0, tm0, seen0, q, phrase_ix as int, known as u8, false, false);
                                }
                            }
                            seen_phrase.set(phrase_ix, true);
                            phrase_mapping.mapping.set(phrase_ix, known as u8);
                            allocated_phrases.set(known, true);
                        },
                        None => match try_allocate(&allocated_phrases, phrase_ix as u8) {
                            None => {
                                proof {
                                    if empty_destination(from, to) {
                                        lemma_no_room(alloc0, phrase_occupancy(to), map0, tm0, seen0, 0, phrase_ix as int);
                                        lemma_unseen_count(phrase_occupancy(to), 0);
                                    }
                                    assert(from.chains[roots[k as int] as int][s as int].phrase == phrase_ix);
                                    assert(phrase_played(from, roots, phrase_ix as int));
                                    lemma_exhausted(alloc0, phrase_occupancy(to), map0, tm0, seen0, 0, phrase_ix as int,
                                        played_phrases(from, roots));
                                    assert forall|i: int| 0 <= i < to.phrases.len() && #[trigger] to.phrases[i] == phrase@
                                        implies copy_slot(map0, tm0, i) by {
                                        assert(copied@[i]);
                                    }
                                    lemma_none_in_use(to.phrases, phrase@, alloc0, phrase_occupancy(to), map0, tm0, seen0, 0);
                                }
                                return Err(AllocationError { kind: MoveKind::PHR, index: phrase_ix });
                            },
                            Some(slot) => {
                                proof {
                                    lemma_place(alloc0, phrase_occupancy(to), map0, tm0, seen0, phrase_ix as int, slot as int, 0);
                                    assert forall|p: int| 0 <= p < N_PHRASES && p != phrase_ix && #[trigger] seen0[p] implies accounted(
                                        to.phrases,
                                        remap_phrase(from.phrases[p], *instr_mapping, *table_mapping, *eq_mapping),
                                        map0.update(phrase_ix as int, slot as u8),
                                        tm0.push(phrase_ix as u8),
                                        p,
                                    ) by {
                                        lemma_accounted_frame(to.phrases, remap_phrase(from.phrases[p], *instr_mapping, *table_mapping, *eq_mapping),
                                            map0, tm0, p, phrase_ix as int, slot as u8, true, alloc0);
                                    }
                                    lemma_push_contains(tm0, phrase_ix as u8, phrase_ix as u8);
                                    assert forall|i: int| 0 <= i < to.phrases.len() && #[trigger] to.phrases[i] == phrase@
                                        implies copy_slot(map0, tm0, i) by {
                                        assert(copied@[i]);
                                    }
                                    lemma_account_new(to.phrases, phrase@, map0, tm0, phrase_ix as int, slot as u8, true);
                                    let map1 = map0.update(phrase_ix as int, slot as u8);
                                    let seen1 = seen0.update(phrase_ix as int, true);
                                    let tm1 = tm0.push(phrase_ix as u8);
                                    assert forall|j: int| 0 <= j < N_PHRASES && #[trigger] alloc0.update(slot as int, true)[j]
                                        implies taken_by(phrase_occupancy(to), map1, seen1, j) by {
                                        if j == slot as int {
                                            assert(seen1[phrase_ix as int] && map1[phrase_ix as int] as int == j);
                                        } else {
                                            lemma_taken_by_step(phrase_occupancy(to), map0, seen0, phrase_ix as int, slot as u8, j);
                                        }
                                    }
                                    assert forall|q: int| 0 <= q < tm1.len()
                                        implies #[trigger] policy_placed(phrase_occupancy(to), map1, tm1, seen1, q, false) by {
                                        if q < tm0.len() {
                                            lemma_policy_frame(phrase_occupancy(to), map0, tm0, seen0, q, phrase_ix as int, slot as u8, true, false);
                                        } else {
                                            lemma_policy_new(phrase_occupancy(to), alloc0, map0, tm0, seen0, phrase_ix as int, slot as int, false);
                                        }
                                    }
                                }
                                seen_phrase.set(phrase_ix, true);
                                allocated_phrases.set(slot, true);
                                phrase_mapping.mapping.set(phrase_ix, slot as u8);
                                phrase_mapping.to_move.push(phrase_ix as u8);
                            },
                        },
                    }
                }
                proof {
                    assert forall|k2: int, s2: int|
                        0 <= k2 <= k && k2 < roots.len() && roots[k2] < N_CHAINS && 0 <= s2 < from.chains[roots[k2] as int].len()
                            && (k2 < k || s2 < s + 1) && #[trigger] from.chains[roots[k2] as int][s2].phrase < N_PHRASES
                            implies seen_phrase@[from.chains[roots[k2] as int][s2].phrase as int] by {
                        if k2 == k && s2 == s {
                            assert(from.chains[roots[k2] as int][s2].phrase == from_chain@[s as int].phrase);
                        }
                    }
                }
                s += 1;
            }
        }
        proof {
            assert forall|k2: int, s2: int|
                0 <= k2 <= k + 1 && k2 < roots.len() && roots[k2] < N_CHAINS && 0 <= s2 < from.chains[roots[k2] as int].len()
                    && (k2 < k + 1 || s2 < 0) && #[trigger] from.chains[roots[k2] as int][s2].phrase < N_PHRASES
                    implies seen_phrase@[from.chains[roots[k2] as int][s2].phrase as int] by {
                if k2 == k {
                    assert(phrases_seen(from, roots, seen_phrase@, k as int, from.chains[roots[k2] as int].len() as int));
                }
            }
        }
        k += 1;
    }
    proof {
        lemma_placed(allocated_phrases@, phrase_occupancy(to), phrase_mapping.mapping@, phrase_mapping.to_move@, seen_phrase@, 0);
    }
    proof {
        assert forall|p: int| 0 <= p < N_PHRASES implies #[trigger] seen_phrase@[p] == played_phrases(from, roots)[p] by {
            if phrase_played(from, roots, p) {
                let (k2, s2) = choose|k2: int, s2: int| 0 <= k2 < roots.len() && roots[k2] < N_CHAINS
                    && 0 <= s2 < from.chains[roots[k2] as int].len() && #[trigger] from.chains[roots[k2] as int][s2].phrase == p;
                assert(from.chains[roots[k2] as int][s2].phrase < N_PHRASES);
            }
        }
        assert(seen_phrase@ =~= played_phrases(from, roots));
        assert forall|p: int| 0 <= p < N_PHRASES && !phrase_played(from, roots, p)
            implies #[trigger] phrase_mapping.mapping@[p] == p as u8 by {
            if seen_phrase@[p] {
                assert(phrase_played(from, roots, p));
            }
        }
    }
    Ok(phrase_mapping)
}

/// Places every root chain.
fn allocate_chains(
    from_song: &Song,
    to_song: &Song,
    phrase_mapping: &PhraseMapping,
    from_chains_ids: &Vec<u8>,
) -> (r: Result<ChainMapping, AllocationError>)
    requires
        from_song@.wf(),
        to_song@.wf(),
    ensures
        r matches Ok(cm) ==> {
            &&& cm.mapping@.len() == N_CHAINS
            &&& placed(cm.mapping@, cm.to_move@, chain_occupancy(to_song@))
            &&& forall|k: int|
                0 <= k < from_chains_ids@.len() && #[trigger] from_chains_ids@[k] < N_CHAINS ==> accounted(
                    to_song@.chains,
                    remap_chain(from_song@.chains[from_chains_ids@[k] as int], *phrase_mapping),
                    cm.mapping@,
                    cm.to_move@,
                    from_chains_ids@[k] as int,
                )
        },
        r matches Ok(cm) ==> forall|q: int| 0 <= q < cm.to_move@.len() ==> #[trigger] policy_placed(
            chain_occupancy(to_song@), cm.mapping@, cm.to_move@, root_chains(from_chains_ids@), q, false),
        r matches Ok(cm) ==> forall|c: int| 0 <= c < N_CHAINS && !from_chains_ids@.contains(c as u8)
            ==> #[trigger] cm.mapping@[c] == c as u8,
        r matches Ok(cm) ==> forall|k: int| 0 <= k < cm.to_move@.len()
            ==> from_chains_ids@.contains(#[trigger] cm.to_move@[k]),
        r matches Err(e) ==> forall|j: int| 0 <= j < N_CHAINS && #[trigger] chain_occupancy(to_song@)[j]
            ==> to_song@.chains[j] != remap_chain(from_song@.chains[e.index as int], *phrase_mapping),
        r matches Err(e) ==> e.kind == MoveKind::CHN && e.index < N_CHAINS && from_chains_ids@.contains(e.index as u8)
            && unseen(chain_occupancy(to_song@)) < count_true(root_chains(from_chains_ids@)),
        empty_destination(from_song@, to_song@) ==> r is Ok,
{
    let ghost from = from_song@;
    let ghost to = to_song@;
    let ghost roots = from_chains_ids@;
    let mut seen_chain: Vec<bool> = vec![false; N_CHAINS];
    let mut allocated_chains = find_referenced_chains(to_song);
    let mut chain_mapping = ChainMapping::default();
    proof {
        lemma_unseen_count(seen_chain@.subrange(0, N_CHAINS as int), 0);
    }
    let mut k: usize = 0;
    while k < from_chains_ids.len()
        invariant
            from.wf(),
            to.wf(),
            from == from_song@,
            to == to_song@,
            roots == from_chains_ids@,
            k <= roots.len(),
            seen_chain@.len() == N_CHAINS,
            forall|c: int| 0 <= c < N_CHAINS && #[trigger] seen_chain@[c] ==> roots.contains(c as u8),
            forall|c: int| 0 <= c < N_CHAINS && !#[trigger] seen_chain@[c] ==> chain_mapping.mapping@[c] == c as u8,
            chain_mapping.mapping@.len() == N_CHAINS,
            placement_inv(allocated_chains@, chain_occupancy(to), chain_mapping.mapping@, chain_mapping.to_move@, seen_chain@, 0),
            forall|c: int| 0 <= c < N_CHAINS && #[trigger] seen_chain@[c] ==> accounted(
                to.chains,
                remap_chain(from.chains[c], *phrase_mapping),
                chain_mapping.mapping@,
                chain_mapping.to_move@,
                c,
            ),
            forall|k2: int| 0 <= k2 < k && #[trigger] roots[k2] < N_CHAINS ==> seen_chain@[roots[k2] as int],
            forall|j: int| 0 <= j < N_CHAINS && #[trigger] allocated_chains@[j]
                ==> taken_by(chain_occupancy(to), chain_mapping.mapping@, seen_chain@, j),
            forall|q: int| 0 <= q < chain_mapping.to_move@.len()
                ==> #[trigger] policy_placed(chain_occupancy(to), chain_mapping.mapping@, chain_mapping.to_move@, seen_chain@, q, false),
        decreases from_chains_ids.len() - k,
    {
        let chain_id = from_chains_ids[k] as usize;
        if chain_id < N_CHAINS && !seen_chain[chain_id] {
            let ghost seen0 = seen_chain@;
            let ghost map0 = chain_mapping.mapping@;
            let ghost tm0 = chain_mapping.to_move@;
            let ghost alloc0 = allocated_chains@;
            let to_chain = from_song.chains[chain_id].map(phrase_mapping);
            proof {
                assert(from_song.chains@[chain_id as int]@ == from.chains[chain_id as int]);
                assert forall|q: int| 0 <= q < tm0.len() implies #[trigger] tm0[q] as int != chain_id by {}
            }
            let copied = copy_slots(&chain_mapping.mapping, &chain_mapping.to_move, N_CHAINS);
            match find_chain(to_song, &copied, &to_chain) {
                Some(c) => {
                    proof {
                        lemma_reuse(alloc0, chain_occupancy(to), map0, tm0, seen0, chain_id as int, c as u8, 0);
                        assert forall|x: int| 0 <= x < N_CHAINS && x != chain_id && #[trigger] seen0[x] implies accounted(
                            to.chains,
                            remap_chain(from.chains[x], *phrase_mapping),
                            map0.update(chain_id as int, c as u8),
                            tm0,
                            x,
                        ) by {
                            lemma_accounted_frame(to.chains, remap_chain(from.chains[x], *phrase_mapping),
                                map0, tm0, x, chain_id as int, c as u8, false, alloc0);
                        }
                        if tm0.contains(chain_id as u8) {
                            let q = choose|q: int| 0 <= q < tm0.len() && tm0[q] == chain_id as u8;
                            assert(tm0[q] as int != chain_id);
                        }
                        assert forall|i: int| 0 <= i < c && #[trigger] to.chains[i] == to_chain@
                            implies copy_slot(map0, tm0, i) by {
                            assert(copied@[i]);
                        }
                        assert(!copied@[c as int]);
                        lemma_account_new(to.chains, to_chain@, map0, tm0, chain_id as int, c as u8, false);
                        let map1 = map0.update(chain_id as int, c as u8);
                        let seen1 = seen0.update(chain_id as int, true);
                        assert forall|j: int| 0 <= j < N_CHAINS && #[trigger] alloc0.update(c as int, true)[j]
                            implies taken_by(chain_occupancy(to), map1, seen1, j) by {
                            if j == c as int {
                                assert(seen1[chain_id as int] && map1[chain_id as int] as int == j);
                            } else {
                                lemma_taken_by_step(chain_occupancy(to), map0, seen0, chain_id as int, c as u8, j);
                            }
                        }
                        assert forall|q: int| 0 <= q < tm0.len()
                            implies #[trigger] policy_placed(chain_occupancy(to), map1, tm0, seen1, q, false) by {
                            lemma_policy_frame(chain_occupancy(to), map0, tm0, seen0, q, chain_id as int, c as u8, false, false);
                        }
                    }
                    seen_chain.set(chain_id, true);
                    chain_mapping.mapping.set(chain_id, c as u8);
                    allocated_chains.set(c, true);
                },
                None => match try_allocate(&allocated_chains, chain_id as u8) {
                    None => {
                        proof {
                            if empty_destination(from, to) {
                                lemma_no_room(alloc0, chain_occupancy(to), map0, tm0, seen0, 0, chain_id as int);
                                lemma_unseen_count(chain_occupancy(to), 0);
                            }
                            assert(roots[k as int] == chain_id as u8);
                            assert(roots.contains(chain_id as u8));
                            lemma_exhausted(alloc0, chain_occupancy(to), map0, tm0, seen0, 0, chain_id as int,
                                root_chains(roots));
                            assert forall|i: int| 0 <= i < to.chains.len() && #[trigger] to.chains[i] == to_chain@
                                implies copy_slot(map0, tm0, i) by {
                                assert(copied@[i]);
                            }
                            lemma_none_in_use(to.chains, to_chain@, alloc0, chain_occupancy(to), map0, tm0, seen0, 0);
                        }
                        return Err(AllocationError { kind: MoveKind::CHN, index: chain_id });
                    },
                    Some(free_slot) => {
                        proof {
                            lemma_place(alloc0, chain_occupancy(to), map0, tm0, seen0, chain_id as int, free_slot as int, 0);
                            assert forall|x: int| 0 <= x < N_CHAINS && x != chain_id && #[trigger] seen0[x] implies accounted(
                                to.chains,
                                remap_chain(from.chains[x], *phrase_mapping),
                                map0.update(chain_id as int, free_slot as u8),
                                tm0.push(chain_id as u8),
                                x,
                            ) by {
                                lemma_accounted_frame(to.chains, remap_chain(from.chains[x], *phrase_mapping),
                                    map0, tm0, x, chain_id as int, free_slot as u8, true, alloc0);
                            }
                            lemma_push_contains(tm0, chain_id as u8, chain_id as u8);
                            assert forall|i: int| 0 <= i < to.chains.len() && #[trigger] to.chains[i] == to_chain@
                                implies copy_slot(map0, tm0, i) by {
                                assert(copied@[i]);
                            }
                            lemma_account_new(to.chains, to_chain@, map0, tm0, chain_id as int, free_slot as u8, true);
                            let map1 = map0.update(chain_id as int, free_slot as u8);
                            let seen1 = seen0.update(chain_id as int, true);
                            let tm1 = tm0.push(chain_id as u8);
                            assert forall|j: int| 0 <= j < N_CHAINS && #[trigger] alloc0.update(free_slot as int, true)[j]
                                implies taken_by(chain_occupancy(to), map1, seen1, j) by {
                                if j == free_slot as int {
                                    assert(seen1[chain_id as int] && map1[chain_id as int] as int == j);
                                } else {
                                    lemma_taken_by_step(chain_occupancy(to), map0, seen0, chain_id as int, free_slot as u8, j);
                                }
                            }
                            assert forall|q: int| 0 <= q < tm1.len()
                                implies #[trigger] policy_placed(chain_occupancy(to), map1, tm1, seen1, q, false) by {
                                if q < tm0.len() {
                                    lemma_policy_frame(chain_occupancy(to), map0, tm0, seen0, q, chain_id as int, free_slot as u8, true, false);
                                } else {
                                    lemma_policy_new(chain_occupancy(to), alloc0, map0, tm0, seen0, chain_id as int, free_slot as int, false);
                                }
                            }
                        }
                        seen_chain.set(chain_id, true);
                        allocated_chains.set(free_slot, true);
                        chain_mapping.mapping.set(chain_id, free_slot as u8);
                        chain_mapping.to_move.push(chain_id as u8);
                    },
                },
            }
        }
        k += 1;
    }
    proof {
        lemma_placed(allocated_chains@, chain_occupancy(to), chain_mapping.mapping@, chain_mapping.to_move@, seen_chain@, 0);
    }
    proof {
        assert forall|c: int| 0 <= c < N_CHAINS implies #[trigger] seen_chain@[c] == root_chains(roots)[c] by {
            if roots.contains(c as u8) {
                let k2 = choose|k2: int| 0 <= k2 < roots.len() && roots[k2] == c as u8;
                assert(roots[k2] < N_CHAINS);
            }
        }
        assert(seen_chain@ =~= root_chains(roots));
        assert forall|c: int| 0 <= c < N_CHAINS && !roots.contains(c as u8)
            implies #[trigger] chain_mapping.mapping@[c] == c as u8 by {
            if seen_chain@[c] {
                assert(roots.contains(c as u8));
            }
        }
    }
    Ok(chain_mapping)
}

impl Remapper {
    /// Plans the copy of the chains `chains` of `from_song`, and of everything
    /// they reach, into free slots of `to_song`. `names` is the command-name
    /// table of `from_song`'s version: it tells which command codes refer to an
    /// instrument ("INS", "NXT"), a table ("TBX", "TBL") or an equalizer ("EQI",
    /// "EQM"). Fails with the first entity for which no slot is left.
    ///
    /// A plan places what it copies in distinct slots that were free in
    /// `to_song`, chosen by the forward policy from the entity's own index
    /// (the backward policy for equalizers). Every phrase and chain the roots
    /// reach is reused at the first slot of `to_song` that already holds its
    /// rewritten form, in use or not, unless a copy goes there; a free slot so
    /// reused is taken from then on. So is every instrument and equalizer they
    /// reach, directly or through other instruments and tables; tables not
    /// bound to an instrument are always copied. Nothing else is copied, and
    /// everything else keeps its own index.
    ///
    /// An error is returned only when a kind ran out of slots: the entity it
    /// names is reached, and `to_song` had fewer free slots of that kind than
    /// there are reached entities of that kind. So planning succeeds whenever
    /// `to_song` has room for everything the roots reach.
    pub fn create(from_song: &Song, to_song: &Song, names: &Vec<String>, chains: &Vec<u8>) -> (r: Result<Remapper, AllocationError>)
        requires
            from_song@.wf(),
            to_song@.wf(),
            names@.len() <= 256,
        ensures
            r matches Ok(plan) ==> {
                &&& plan.valid_for(from_song@, to_song@)
                &&& plan.classified_by(names@)
                &&& plan.covers_roots(from_song@, to_song@, chains@)
                &&& plan.only_reached(from_song@, chains@)
                &&& plan.placed_forward(from_song@, to_song@, chains@)
                &&& exists|fi: Seq<bool>, ft: Seq<bool>, fe: Seq<bool>| plan.reach_closed(from_song@, to_song@, chains@, fi, ft, fe)
            },
            empty_destination(from_song@, to_song@) ==> r is Ok,
            r matches Err(e) ==> error_owed(from_song@, to_song@, names@, chains@, e),
            r matches Err(e) ==> no_equal_in_use(from_song@, to_song@, e),
            room_for(from_song@, to_song@, names@, chains@) ==> r is Ok,
    {
        proof {
            lemma_room_excludes_error(from_song@, to_song@, names@, chains@);
        }
        let alloc_state = Remapper::allocate_eq_and_instruments(from_song, to_song, names, chains)?;
        let ghost ic = alloc_state.instrument_mapping.instrument_tracking_commands@;
        let ghost tc = alloc_state.table_mapping.table_tracking_commands@;
        let ghost ec = alloc_state.eq_mapping.eq_tracking_commands@;
        let phrase_mapping = match allocate_phrases(
            from_song,
            to_song,
            &alloc_state.instrument_mapping,
            &alloc_state.table_mapping,
            &alloc_state.eq_mapping,
            chains,
        ) {
            Ok(m) => m,
            Err(e) => {
                proof {
                    assert(exhausted(from_song@, to_song@, chains@, ic, tc, ec, e));
                    let im = alloc_state.instrument_mapping;
                    let tmm = alloc_state.table_mapping;
                    let em = alloc_state.eq_mapping;
                    assert(phrase_unmatched(from_song@, to_song@, e.index as int, im, tmm, em));
                }
                return Err(e);
            },
        };
        let chain_mapping = match allocate_chains(from_song, to_song, &phrase_mapping, chains) {
            Ok(m) => m,
            Err(e) => {
                proof {
                    assert(exhausted(from_song@, to_song@, chains@, ic, tc, ec, e));
                    assert(chain_unmatched(from_song@, to_song@, e.index as int, phrase_mapping));
                }
                return Err(e);
            },
        };
        proof {
            lemma_placed(alloc_state.allocated_eqs@, eq_occupancy(to_song@, spec_instrument_eq_count(to_song@.version)),
                alloc_state.eq_mapping.mapping@, alloc_state.eq_mapping.to_move@, alloc_state.eq_flags@, 0);
            lemma_placed(alloc_state.allocated_instruments@, instrument_occupancy(to_song@),
                alloc_state.instrument_mapping.mapping@, alloc_state.instrument_mapping.to_move@, alloc_state.instrument_flags@, 0);
            lemma_placed(alloc_state.allocated_tables@, table_occupancy(to_song@),
                alloc_state.table_mapping.mapping@, alloc_state.table_mapping.to_move@, alloc_state.table_flags@, N_INSTRUMENTS as int);
        }
        let plan = Remapper {
            eq_mapping: alloc_state.eq_mapping,
            instrument_mapping: alloc_state.instrument_mapping,
            table_mapping: alloc_state.table_mapping,
            phrase_mapping,
            chain_mapping,
        };
        proof {
            let fi = alloc_state.instrument_flags@;
            let ft = alloc_state.table_flags@;
            let fe = alloc_state.eq_flags@;
            let from = from_song@;
            assert forall|f: Fx| #[trigger] alloc_state.covers_fx(f) implies plan.fx_in(f, fi, ft, fe) by {}
            assert forall|k: int, s: int, q: int| is_root_row(from, chains@, k, s, q)
                implies plan.row_in(#[trigger] root_row(from, chains@, k, s, q), fi, ft, fe) by {
                let st = root_row(from, chains@, k, s, q);
                assert(alloc_state.covers_step(st));
                assert(alloc_state.covers_fx(st.fx1) && alloc_state.covers_fx(st.fx2) && alloc_state.covers_fx(st.fx3));
            }
            assert forall|t: int| 0 <= t < N_TABLES && #[trigger] ft[t] implies {
                &&& forall|q: int| 0 <= q < from.tables[t].len() ==> plan.fx_in(#[trigger] from.tables[t][q].fx1, fi, ft, fe)
                    && plan.fx_in(from.tables[t][q].fx2, fi, ft, fe) && plan.fx_in(from.tables[t][q].fx3, fi, ft, fe)
                &&& t >= N_INSTRUMENTS ==> plan.table_mapping.to_move@.contains(t as u8)
            } by {
                assert(alloc_state.covers_table(from.tables[t]));
                assert forall|q: int| 0 <= q < from.tables[t].len() implies plan.fx_in(#[trigger] from.tables[t][q].fx1, fi, ft, fe)
                    && plan.fx_in(from.tables[t][q].fx2, fi, ft, fe) && plan.fx_in(from.tables[t][q].fx3, fi, ft, fe) by {
                    let row = from.tables[t][q];
                    assert(alloc_state.covers_fx(row.fx1) && alloc_state.covers_fx(row.fx2) && alloc_state.covers_fx(row.fx3));
                }
            }
            assert(plan.reach_closed(from, to_song@, chains@, fi, ft, fe));
            assert(alloc_state.roots@ == chains@);
            assert forall|i: int| 0 <= i < N_INSTRUMENTS && !alloc_state.must_i(from, i)
                implies #[trigger] plan.instrument_mapping.mapping@[i] == i as u8 by {
                if fi[i] {
                    assert(alloc_state.must_i(from, i));
                }
            }
            assert forall|t: int| 0 <= t < N_TABLES && !alloc_state.must_t(from, t)
                implies #[trigger] plan.table_mapping.mapping@[t] == t as u8 by {
                if ft[t] {
                    assert(alloc_state.must_t(from, t));
                }
            }
            assert forall|e: int| 0 <= e < plan.eq_mapping.mapping@.len() && !alloc_state.must_e(from, e)
                implies #[trigger] plan.eq_mapping.mapping@[e] == e as u8 by {
                if fe[e] {
                    assert(alloc_state.must_e(from, e));
                }
            }
            assert forall|k: int| 0 <= k < plan.instrument_mapping.to_move@.len()
                implies alloc_state.must_i(from, #[trigger] plan.instrument_mapping.to_move@[k] as int) by {
                assert(fi[plan.instrument_mapping.to_move@[k] as int]);
            }
            assert forall|k: int| 0 <= k < plan.table_mapping.to_move@.len()
                implies alloc_state.must_t(from, #[trigger] plan.table_mapping.to_move@[k] as int) by {
                assert(ft[plan.table_mapping.to_move@[k] as int]);
            }
            assert forall|k: int| 0 <= k < plan.eq_mapping.to_move@.len()
                implies alloc_state.must_e(from, #[trigger] plan.eq_mapping.to_move@[k] as int) by {
                assert(fe[plan.eq_mapping.to_move@[k] as int]);
            }
            assert(plan.only_reached(from, chains@));
            let ic = plan.instrument_mapping.instrument_tracking_commands@;
            let tc = plan.table_mapping.table_tracking_commands@;
            let ec = plan.eq_mapping.eq_tracking_commands@;
            assert forall|k: int, s: int, q: int| is_root_row(from, chains@, k, s, q)
                implies row_refs_in(ic, tc, ec, #[trigger] root_row(from, chains@, k, s, q), fi, ft, fe) by {
                assert(plan.row_in(root_row(from, chains@, k, s, q), fi, ft, fe));
            }
            assert forall|t: int, q: int| 0 <= t < N_TABLES && ft[t] && 0 <= q < from.tables[t].len()
                implies refs_in(ic, tc, ec, #[trigger] from.tables[t][q].fx1, fi, ft, fe)
                && refs_in(ic, tc, ec, from.tables[t][q].fx2, fi, ft, fe) && refs_in(ic, tc, ec, from.tables[t][q].fx3, fi, ft, fe) by {
                assert(plan.fx_in(from.tables[t][q].fx1, fi, ft, fe));
                assert(plan.fx_in(from.tables[t][q].fx2, fi, ft, fe));
                assert(plan.fx_in(from.tables[t][q].fx3, fi, ft, fe));
            }
            assert(closed_under(from, chains@, ic, tc, ec, fi, ft, fe));
            assert(fi =~= reached_instruments(from, chains@, ic, tc, ec));
            assert(ft =~= reached_tables(from, chains@, ic, tc, ec));
            assert(fe =~= reached_eqs(from, chains@, ic, tc, ec));
            assert(plan.placed_forward(from, to_song@, chains@));
        }
        Ok(plan)
    }
}


/// The rows of the phrases that the root chains play are reached.
proof fn lemma_root_row_reached(st: InstrumentAllocatorState, from: SongModel, roots: Seq<u8>, k: int, s: int, q: int)
    requires
        st.roots@ == roots,
        is_root_row(from, roots, k, s, q),
    ensures
        st.must_r(from, root_row(from, roots, k, s, q)),
{
    let ic = st.instrument_mapping.instrument_tracking_commands@;
    let tc = st.table_mapping.table_tracking_commands@;
    let ec = st.eq_mapping.eq_tracking_commands@;
    assert forall|fi: Seq<bool>, ft: Seq<bool>, fe: Seq<bool>| #[trigger] closed_under(from, roots, ic, tc, ec, fi, ft, fe)
        implies row_refs_in(ic, tc, ec, root_row(from, roots, k, s, q), fi, ft, fe) by {}
}

/// With room for everything the roots reach, no error is owed.
proof fn lemma_room_excludes_error(from: SongModel, to: SongModel, names: Seq<String>, roots: Seq<u8>)
    ensures
        forall|e: AllocationError| room_for(from, to, names, roots) ==> !#[trigger] error_owed(from, to, names, roots, e),
{
    assert forall|e: AllocationError| room_for(from, to, names, roots) implies !#[trigger] error_owed(from, to, names, roots, e) by {
        if error_owed(from, to, names, roots, e) {
            let (ic, tc, ec) = choose|ic: Seq<u8>, tc: Seq<u8>, ec: Seq<u8>|
                classifies(ic, names, instrument_command_names()) && classifies(tc, names, table_command_names())
                    && classifies(ec, names, eq_command_names()) && #[trigger] exhausted(from, to, roots, ic, tc, ec, e);
            assert(count_true(reached_eqs(from, roots, ic, tc, ec)) <= unseen(eq_occupancy(to, spec_instrument_eq_count(to.version))));
        }
    }
}
} // verus!
