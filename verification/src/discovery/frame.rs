use vstd::prelude::*;

use crate::{
    data::ShiftVec,
    view::{Install, Transition},
};

verus! {

/// What a `Frame` remembers of each install on its highway.
#[derive(Clone, Copy, Debug)]
pub struct Metadata {
    pub source_height: usize,
    pub destination_height: usize,
    pub tailless: bool,
}

pub open spec fn metadata_of(install: Install) -> Metadata {
    Metadata {
        source_height: install.source_height,
        destination_height: install.destination_height,
        tailless: install.tailless,
    }
}

pub open spec fn metadata_seq(installs: Seq<Install>) -> Seq<Metadata> {
    installs.map_values(|install: Install| metadata_of(install))
}

/// The installs of a highway lead upwards, above `base`, and are ordered by
/// strictly increasing source heights and strictly increasing destination heights.
pub open spec fn ordered_highway(meta: Seq<Metadata>, base: nat) -> bool {
    &&& forall|i: int| 0 <= i < meta.len() ==> #[trigger] meta[i].source_height < meta[i].destination_height
    &&& forall|i: int| 0 <= i < meta.len() ==> base < #[trigger] meta[i].destination_height
    &&& forall|i: int, j: int|
        0 <= i < j < meta.len() ==> #[trigger] meta[i].source_height < #[trigger] meta[j].source_height
    &&& forall|i: int, j: int|
        0 <= i < j < meta.len() ==> #[trigger] meta[i].destination_height < #[trigger] meta[j].destination_height
}

/// Each install of a highway starts at the height where the one before it ends.
pub open spec fn chained(meta: Seq<Metadata>) -> bool {
    forall|i: int, j: int|
        0 <= i && j == i + 1 && j < meta.len() ==> #[trigger] meta[i].destination_height
            == #[trigger] meta[j].source_height
}

/// `k` is where a client at height `h` must start applying the highway: right after
/// the last tailless install that reaches no higher than `h`, or at the beginning
/// if there is none.
pub open spec fn starts_at(meta: Seq<Metadata>, h: int, k: int) -> bool {
    &&& 0 <= k <= meta.len()
    &&& (k == 0 || (meta[k - 1].tailless && meta[k - 1].destination_height <= h))
    &&& forall|j: int| k <= j < meta.len() ==> !(#[trigger] meta[j].tailless && meta[j].destination_height <= h)
}

/// The start index for a client at height `h` (see `starts_at`).
pub open spec fn start_index(meta: Seq<Metadata>, h: int) -> nat
    decreases meta.len(),
{
    if meta.len() == 0 {
        0
    } else if meta.last().tailless && meta.last().destination_height <= h {
        meta.len()
    } else {
        start_index(meta.drop_last(), h)
    }
}

pub proof fn lemma_start_index(meta: Seq<Metadata>, h: int)
    ensures
        starts_at(meta, h, start_index(meta, h) as int),
    decreases meta.len(),
{
    if meta.len() > 0 {
        if !(meta.last().tailless && meta.last().destination_height <= h) {
            lemma_start_index(meta.drop_last(), h);
            let k = start_index(meta.drop_last(), h) as int;
            assert forall|j: int| k <= j < meta.len() implies !(#[trigger] meta[j].tailless
                && meta[j].destination_height <= h) by {
                if j < meta.len() - 1 {
                    assert(meta.drop_last()[j] == meta[j]);
                }
            }
            if k > 0 {
                assert(meta.drop_last()[k - 1] == meta[k - 1]);
            }
        }
    }
}

pub proof fn lemma_starts_at_unique(meta: Seq<Metadata>, h: int, k1: int, k2: int)
    requires
        starts_at(meta, h, k1),
        starts_at(meta, h, k2),
    ensures
        k1 == k2,
{
    if k1 < k2 {
        assert(meta[k2 - 1].tailless);
    } else if k2 < k1 {
        assert(meta[k1 - 1].tailless);
    }
}

/// The index of the install whose source height is `h`, if any.
pub open spec fn position_by_source(meta: Seq<Metadata>, h: int) -> Option<int> {
    if exists|i: int| 0 <= i < meta.len() && #[trigger] meta[i].source_height == h {
        Some(choose|i: int| 0 <= i < meta.len() && #[trigger] meta[i].source_height == h)
    } else {
        None
    }
}

/// The index of the install whose destination height is `h`, if any.
pub open spec fn position_by_destination(meta: Seq<Metadata>, h: int) -> Option<int> {
    if exists|i: int| 0 <= i < meta.len() && #[trigger] meta[i].destination_height == h {
        Some(choose|i: int| 0 <= i < meta.len() && #[trigger] meta[i].destination_height == h)
    } else {
        None
    }
}

/// The highway after acquiring `install`: the part of the old highway that leads
/// to the source of `install`, then `install`, then the part of the old highway
/// that starts from the destination of `install`.
pub open spec fn acquired(installs: Seq<Install>, install: Install) -> Seq<Install> {
    let meta = metadata_seq(installs);
    let prefix = match position_by_destination(meta, install.source_height as int) {
        Some(to) => installs.take(to + 1),
        None => Seq::<Install>::empty(),
    };
    let suffix = match position_by_source(meta, install.destination_height as int) {
        Some(from) => installs.skip(from),
        None => Seq::<Install>::empty(),
    };
    prefix + seq![install] + suffix
}

/// A client at any height from the base of a well-formed frame up to (but
/// excluding) its top receives a non-empty list of installs, each starting at
/// the height where the one before it ends, the last one reaching the top; when
/// the list does not begin at the start of the highway, the install just before
/// it is tailless, reaches no higher than the client, and ends where the list
/// starts.
pub proof fn lemma_lookup_reaches_top(frame: &Frame, height: int)
    requires
        frame.wf(),
        frame.spec_base() <= height < frame.spec_top(),
    ensures
        frame.spec_lookup(height).len() > 0,
        frame.spec_lookup(height).last().destination_height == frame.spec_top(),
        chained(metadata_seq(frame.spec_lookup(height))),
        frame.spec_lookup(height) == frame.installs().skip(start_index(frame.meta(), height) as int),
        start_index(frame.meta(), height) > 0 ==> {
            let previous = frame.installs()[start_index(frame.meta(), height) - 1];
            &&& previous.tailless
            &&& previous.destination_height <= height
            &&& previous.destination_height == frame.spec_lookup(height)[0].source_height
        },
{
    frame.lemma_wf_ordered();
    let meta = frame.meta();
    let installs = frame.installs();
    lemma_start_index(meta, height);
    let k = start_index(meta, height) as int;
    assert(installs.len() > 0);
    if k > 0 {
        assert(meta[k - 1] == metadata_of(installs[k - 1]));
        assert(meta[meta.len() - 1] == metadata_of(installs.last()));
        if k - 1 < meta.len() - 1 {
            assert(meta[k - 1].destination_height < meta[meta.len() - 1].destination_height);
        }
    }
    assert(installs.skip(k).last() == installs.last());
    let looked = metadata_seq(installs.skip(k));
    assert forall|i: int, j: int|
        0 <= i && j == i + 1 && j < looked.len() implies #[trigger] looked[i].destination_height
        == #[trigger] looked[j].source_height by {
        assert(looked[i] == meta[k + i] && looked[j] == meta[k + j]);
    }
    if k > 0 {
        assert(k < installs.len());
        assert(meta[k - 1] == metadata_of(installs[k - 1]));
        assert(meta[k] == metadata_of(installs[k]));
        assert(meta[k - 1].destination_height == meta[k].source_height);
        assert(installs.skip(k)[0] == installs[k]);
    }
}

/// An install that leads beyond the top of a well-formed frame is always
/// acquired, and the new top is its destination.
pub proof fn lemma_growth_reaches_destination(frame: &Frame, install: Install)
    requires
        frame.wf(),
        install.valid(),
        frame.spec_can_grow_by(install.spec_transition()),
    ensures
        acquired(frame.installs(), install).last() == install,
{
    frame.lemma_wf_ordered();
    let meta = frame.meta();
    let installs = frame.installs();
    assert forall|i: int| 0 <= i < meta.len() implies #[trigger] meta[i].source_height
        != install.destination_height by {
        assert(meta[meta.len() - 1] == metadata_of(installs.last()));
        if i < meta.len() - 1 {
            assert(meta[i].destination_height < meta[meta.len() - 1].destination_height);
        }
    }
    assert(position_by_source(meta, install.destination_height as int) is None);
}

/// An install improves a highway exactly when it is better than what it
/// replaces: it spans from the source of one install on the highway to the
/// destination of another, either shortcutting several installs, or replacing
/// a single install of the same span that is not tailless by one that is.
pub proof fn lemma_improvement_is_better(frame: &Frame, install: Install)
    requires
        frame.wf(),
        install.valid(),
    ensures
        frame.spec_can_improve_by(install.spec_transition()) <==> exists|s: int, d: int|
            0 <= s <= d < frame.installs().len() && (#[trigger] frame.installs()[s]).source_height
                == install.source_height && (#[trigger] frame.installs()[d]).destination_height
                == install.destination_height && (s < d || (install.tailless
                && !frame.installs()[d].tailless)),
{
    frame.lemma_wf_ordered();
    let meta = frame.meta();
    let installs = frame.installs();
    if exists|s: int, d: int|
        0 <= s <= d < frame.installs().len() && (#[trigger] frame.installs()[s]).source_height
            == install.source_height && (#[trigger] frame.installs()[d]).destination_height
            == install.destination_height && (s < d || (install.tailless
            && !frame.installs()[d].tailless)) {
        let (s, d) = choose|s: int, d: int|
            0 <= s <= d < frame.installs().len() && (#[trigger] frame.installs()[s]).source_height
                == install.source_height && (#[trigger] frame.installs()[d]).destination_height
                == install.destination_height && (s < d || (install.tailless
                && !frame.installs()[d].tailless));
        assert(meta[s] == metadata_of(installs[s]));
        assert(meta[d] == metadata_of(installs[d]));
        let ps = position_by_source(meta, install.source_height as int)->0;
        let pd = position_by_destination(meta, install.destination_height as int)->0;
        if ps != s {
            if ps < s {
                assert(meta[ps].source_height < meta[s].source_height);
            } else {
                assert(meta[s].source_height < meta[ps].source_height);
            }
        }
        if pd != d {
            if pd < d {
                assert(meta[pd].destination_height < meta[d].destination_height);
            } else {
                assert(meta[d].destination_height < meta[pd].destination_height);
            }
        }
    }
    if frame.spec_can_improve_by(install.spec_transition()) {
        lemma_improvement_found(frame, install);
    }
}

proof fn lemma_improvement_found(frame: &Frame, install: Install)
    requires
        frame.wf(),
        install.valid(),
        frame.spec_can_improve_by(install.spec_transition()),
    ensures
        exists|s: int, d: int|
            0 <= s <= d < frame.installs().len() && (#[trigger] frame.installs()[s]).source_height
                == install.source_height && (#[trigger] frame.installs()[d]).destination_height
                == install.destination_height && (s < d || (install.tailless
                && !frame.installs()[d].tailless)),
{
    frame.lemma_wf_ordered();
    let meta = frame.meta();
    let installs = frame.installs();
    let s = position_by_source(meta, install.source_height as int)->0;
    let d = position_by_destination(meta, install.destination_height as int)->0;
    assert(meta[s] == metadata_of(installs[s]));
    assert(meta[d] == metadata_of(installs[d]));
    if s > d {
        // The source of `install` would lie at or above the destination of the
        // install at `d`, which is the destination of `install`.
        assert(meta[d].source_height < meta[s].source_height);
        if d + 1 < s {
            assert(meta[d + 1].source_height <= meta[s].source_height);
        }
        assert(meta[d].destination_height == meta[d + 1].source_height);
        assert(false);
    }
}

/// A published install whose source and destination heights are those of an
/// install already on the highway is taken only if it is tailless and the one
/// on the highway is not: a tailless install is never replaced by one with a
/// tail and the same span.
pub proof fn lemma_same_span_needs_tailless(frame: &Frame, install: Install, k: int)
    requires
        frame.wf(),
        install.valid(),
        0 <= k < frame.installs().len(),
        frame.installs()[k].source_height == install.source_height,
        frame.installs()[k].destination_height == install.destination_height,
    ensures
        frame.spec_can_grow_by(install.spec_transition()) || frame.spec_can_improve_by(
            install.spec_transition(),
        ) <==> install.tailless && !frame.installs()[k].tailless,
{
    frame.lemma_wf_ordered();
    let meta = frame.meta();
    let installs = frame.installs();
    assert(meta[k] == metadata_of(installs[k]));
    assert(meta[meta.len() - 1] == metadata_of(installs.last()));
    if k < meta.len() - 1 {
        assert(meta[k].destination_height < meta[meta.len() - 1].destination_height);
    }
    assert(!frame.spec_can_grow_by(install.spec_transition()));
    assert(meta[k].source_height == install.source_height);
    assert(meta[k].destination_height == install.destination_height);
    assert(position_by_source(meta, install.source_height as int) is Some);
    assert(position_by_destination(meta, install.destination_height as int) is Some);
    let s = position_by_source(meta, install.source_height as int)->0;
    let d = position_by_destination(meta, install.destination_height as int)->0;
    if s != k {
        if s < k {
            assert(meta[s].source_height < meta[k].source_height);
        } else {
            assert(meta[k].source_height < meta[s].source_height);
        }
    }
    if d != k {
        if d < k {
            assert(meta[d].destination_height < meta[k].destination_height);
        } else {
            assert(meta[k].destination_height < meta[d].destination_height);
        }
    }
}

/// The state of the light-subscription service of a discovery server.
///
/// A `Frame` holds a highway of installs from the genesis height `base`
/// up to its `top`, and for every height between `base` and `top` the index
/// on the highway from which a client at that height must start.
pub struct Frame {
    base: usize,
    highway: Vec<Install>,
    metadata: Vec<Metadata>,
    lookup: ShiftVec<usize>,
}

impl Frame {
    pub closed spec fn spec_base(&self) -> nat {
        self.base as nat
    }

    /// The installs on the highway, in order.
    pub closed spec fn installs(&self) -> Seq<Install> {
        self.highway@
    }

    pub open spec fn meta(&self) -> Seq<Metadata> {
        metadata_seq(self.installs())
    }

    /// The height that the highway reaches.
    pub open spec fn spec_top(&self) -> nat {
        if self.installs().len() == 0 {
            self.spec_base()
        } else {
            self.installs().last().destination_height as nat
        }
    }

    /// `height` brought within `spec_base()` and `spec_top()`.
    pub open spec fn clamped(&self, height: int) -> int {
        if height < self.spec_base() {
            self.spec_base() as int
        } else if height > self.spec_top() {
            self.spec_top() as int
        } else {
            height
        }
    }

    /// What `lookup(height)` returns.
    pub open spec fn spec_lookup(&self, height: int) -> Seq<Install> {
        let h = self.clamped(height);
        if h < self.spec_top() {
            self.installs().skip(start_index(self.meta(), h) as int)
        } else {
            Seq::<Install>::empty()
        }
    }

    pub open spec fn spec_can_grow_by(&self, transition: Transition) -> bool {
        transition.destination_height > self.spec_top()
    }

    pub open spec fn spec_can_improve_by(&self, transition: Transition) -> bool {
        match (
            position_by_source(self.meta(), transition.source_height as int),
            position_by_destination(self.meta(), transition.destination_height as int),
        ) {
            (Some(source), Some(destination)) => source < destination || (transition.tailless
                && !self.meta()[destination].tailless),
            _ => false,
        }
    }

    /// The frame is well-formed: its highway is ordered, its metadata mirrors the
    /// highway, and its lookup table holds the start index of every height.
    pub closed spec fn wf(&self) -> bool {
        &&& ordered_highway(self.meta(), self.spec_base())
        &&& chained(self.meta())
        &&& self.metadata@ == self.meta()
        &&& self.lookup.offset() == self.base
        &&& self.lookup.spec_len() == self.spec_top()
        &&& forall|h: int|
            self.base <= h < self.spec_top() ==> starts_at(
                self.meta(),
                h,
                #[trigger] self.lookup.at(h) as int,
            )
    }

    /// Well-formedness orders and chains the highway.
    pub proof fn lemma_wf_ordered(&self)
        requires
            self.wf(),
        ensures
            ordered_highway(self.meta(), self.spec_base()),
            chained(self.meta()),
    {
    }

    pub fn genesis(genesis: &crate::view::View) -> (result: Frame)
        ensures
            result.wf(),
            result.spec_base() == genesis.spec_height(),
            result.installs() == Seq::<Install>::empty(),
    {
        let height = genesis.height();
        let result = Frame {
            base: height,
            highway: Vec::new(),
            metadata: Vec::new(),
            lookup: ShiftVec::new(height),
        };
        assert(result.meta() =~= Seq::<Metadata>::empty());
        result
    }

    /// The frame after `install`, if `install` makes the highway longer or better;
    /// `None` otherwise.
    pub fn update(&self, install: Install) -> (result: Option<Frame>)
        requires
            self.wf(),
            install.valid(),
        ensures
            match result {
                Some(frame) => {
                    &&& self.spec_can_grow_by(install.spec_transition())
                        || self.spec_can_improve_by(install.spec_transition())
                    &&& frame.wf()
                    &&& frame.spec_base() == self.spec_base()
                    &&& frame.installs() == acquired(self.installs(), install)
                },
                None => !self.spec_can_grow_by(install.spec_transition())
                    && !self.spec_can_improve_by(install.spec_transition()),
            },
            result is Some ==> forall|k: int|
                0 <= k < self.installs().len() && (#[trigger] self.installs()[k]).source_height
                    == install.source_height && self.installs()[k].destination_height
                    == install.destination_height ==> install.tailless && !self.installs()[k].tailless,
            result matches Some(frame) ==> frame.spec_top() == if install.destination_height
                > self.spec_top() {
                install.destination_height as nat
            } else {
                self.spec_top()
            },
    {
        let transition = install.into_transition();

        if self.can_grow_by(&transition) || self.can_improve_by(&transition) {
            proof {
                self.lemma_acquired_top(install);
                assert forall|k: int|
                    0 <= k < self.installs().len() && (#[trigger] self.installs()[k]).source_height
                        == install.source_height && self.installs()[k].destination_height
                        == install.destination_height implies install.tailless
                    && !self.installs()[k].tailless by {
                    lemma_same_span_needs_tailless(self, install, k);
                }
            }
            Some(self.acquire(install, transition))
        } else {
            None
        }
    }

    pub fn top(&self) -> (result: usize)
        requires
            self.wf(),
        ensures
            result == self.spec_top(),
    {
        if self.metadata.len() == 0 {
            self.base
        } else {
            self.metadata[self.metadata.len() - 1].destination_height
        }
    }

    /// The index on the highway from which a client at `height` must start; the
    /// height must lie from the base (included) to the top (excluded).
    pub fn start(&self, height: usize) -> (result: usize)
        requires
            self.wf(),
            self.spec_base() <= height < self.spec_top(),
        ensures
            result == start_index(self.meta(), height as int),
    {
        proof {
            lemma_start_index(self.meta(), height as int);
        }
        let start = *self.lookup.index(height);
        proof {
            lemma_starts_at_unique(
                self.meta(),
                height as int,
                start as int,
                start_index(self.meta(), height as int) as int,
            );
        }
        start
    }

    /// The base height.
    pub fn base(&self) -> (result: usize)
        ensures
            result == self.spec_base(),
    {
        self.base
    }

    /// The installs on the highway, in order.
    pub fn highway(&self) -> (result: &Vec<Install>)
        ensures
            result@ == self.installs(),
    {
        &self.highway
    }

    /// The installs that a client at `height` must apply, in order, to reach `top()`.
    pub fn lookup(&self, height: usize) -> (result: Vec<Install>)
        requires
            self.wf(),
        ensures
            result@ == self.spec_lookup(height as int),
    {
        let top = self.top();
        let height = if height < self.base {
            self.base
        } else if height > top {
            top
        } else {
            height
        };

        if height < top {
            let start = *self.lookup.index(height);
            proof {
                lemma_start_index(self.meta(), height as int);
                lemma_starts_at_unique(
                    self.meta(),
                    height as int,
                    start as int,
                    start_index(self.meta(), height as int) as int,
                );
            }
            let mut result: Vec<Install> = Vec::new();
            let mut index = start;
            while index < self.highway.len()
                invariant
                    start <= index <= self.highway@.len(),
                    result@ == self.highway@.subrange(start as int, index as int),
                decreases self.highway@.len() - index,
            {
                result.push(self.highway[index]);
                index = index + 1;
            }
            result
        } else {
            Vec::new()
        }
    }

    fn acquire(&self, install: Install, transition: Transition) -> (result: Frame)
        requires
            self.wf(),
            install.valid(),
            transition == install.spec_transition(),
            self.spec_can_grow_by(transition) || self.spec_can_improve_by(transition),
        ensures
            result.wf(),
            result.spec_base() == self.spec_base(),
            result.installs() == acquired(self.installs(), install),
    {
        let base = self.base;
        let ghost old_meta = self.meta();

        let mut highway: Vec<Install> = Vec::new();
        let mut metadata: Vec<Metadata> = Vec::new();

        let prefix_end = match self.locate_by_destination(transition.source_height) {
            Some(to) => {
                assert(to < self.highway.len());
                to + 1
            },
            None => 0,
        };

        let mut index: usize = 0;
        while index < prefix_end
            invariant
                self.wf(),
                prefix_end <= self.highway@.len(),
                0 <= index <= prefix_end,
                highway@ == self.highway@.take(index as int),
                metadata@ == metadata_seq(highway@),
            decreases prefix_end - index,
        {
            highway.push(self.highway[index]);
            metadata.push(self.metadata[index]);
            index = index + 1;
            proof {
                assert(highway@ =~= self.highway@.take(index as int));
                assert(metadata@ =~= metadata_seq(highway@));
            }
        }

        highway.push(install);

        metadata.push(
            Metadata {
                source_height: transition.source_height,
                destination_height: transition.destination_height,
                tailless: transition.tailless,
            },
        );

        proof {
            assert(metadata@ =~= metadata_seq(highway@));
        }

        let ghost before_suffix = highway@;

        if let Some(from) = self.locate_by_source(transition.destination_height) {
            let mut index: usize = from;
            while index < self.highway.len()
                invariant
                    self.wf(),
                    from <= index <= self.highway@.len(),
                    highway@ == before_suffix + self.highway@.subrange(from as int, index as int),
                    metadata@ == metadata_seq(highway@),
                decreases self.highway@.len() - index,
            {
                highway.push(self.highway[index]);
                metadata.push(self.metadata[index]);
                index = index + 1;
                proof {
                    assert(highway@ =~= before_suffix + self.highway@.subrange(
                        from as int,
                        index as int,
                    ));
                    assert(metadata@ =~= metadata_seq(highway@));
                }
            }
        }

        proof {
            assert(highway@ =~= acquired(self.installs(), install));
            self.lemma_acquired_ordered(install);
            self.lemma_acquired_chained(install);
        }

        let lookup = Frame::build_lookup(base, &metadata);

        Frame { base, highway, metadata, lookup }
    }

    /// The ordering of a highway survives the acquisition of an install that
    /// grows or improves it.
    proof fn lemma_acquired_ordered(&self, install: Install)
        requires
            self.wf(),
            install.valid(),
            self.spec_can_grow_by(install.spec_transition()) || self.spec_can_improve_by(
                install.spec_transition(),
            ),
        ensures
            ordered_highway(metadata_seq(acquired(self.installs(), install)), self.spec_base()),
            metadata_seq(acquired(self.installs(), install)).len() > 0,
    {
        let installs = self.installs();
        let meta = self.meta();
        let t = install.spec_transition();
        let m = metadata_of(install);
        let prefix_meta = match position_by_destination(meta, install.source_height as int) {
            Some(to) => meta.take(to + 1),
            None => Seq::<Metadata>::empty(),
        };
        let suffix_meta = match position_by_source(meta, install.destination_height as int) {
            Some(from) => meta.skip(from),
            None => Seq::<Metadata>::empty(),
        };
        let new_meta = metadata_seq(acquired(installs, install));
        assert(new_meta =~= prefix_meta + seq![m] + suffix_meta);

        // The destination of `install` lies above `base`.
        if self.spec_can_grow_by(t) {
            if installs.len() > 0 {
                assert(meta[meta.len() - 1].destination_height == installs.last().destination_height);
            }
        } else {
            let d = position_by_destination(meta, t.destination_height as int)->0;
            assert(meta[d].destination_height == t.destination_height);
        }
        assert(self.spec_base() < m.destination_height);

        // Every destination on the old highway is at most its top.
        assert forall|i: int| 0 <= i < meta.len() implies #[trigger] meta[i].destination_height
            <= self.spec_top() by {
            if i < meta.len() - 1 {
                assert(meta[i].destination_height < meta[meta.len() - 1].destination_height);
            }
        }

        let p = prefix_meta.len() as int;
        let s = suffix_meta.len() as int;

        // Facts at the junctions.
        if p > 0 {
            let to = position_by_destination(meta, install.source_height as int)->0;
            assert(prefix_meta[p - 1] == meta[to]);
            assert(prefix_meta[p - 1].destination_height == m.source_height);
        }
        if s > 0 {
            let from = position_by_source(meta, install.destination_height as int)->0;
            assert(suffix_meta[0] == meta[from]);
            assert(suffix_meta[0].source_height == m.destination_height);
        }
        if self.spec_can_grow_by(t) {
            // No source on the old highway reaches the destination of `install`.
            assert forall|i: int| 0 <= i < meta.len() implies #[trigger] meta[i].source_height
                != m.destination_height by {}
            assert(s == 0);
        }

        assert forall|i: int, j: int|
            0 <= i < j < new_meta.len() implies #[trigger] new_meta[i].source_height
            < #[trigger] new_meta[j].source_height
            && new_meta[i].destination_height < new_meta[j].destination_height by {
            if j < p {
                let to = position_by_destination(meta, install.source_height as int)->0;
                assert(new_meta[i] == meta[i] && new_meta[j] == meta[j]);
            } else if i > p {
                let from = position_by_source(meta, install.destination_height as int)->0;
                assert(new_meta[i] == meta[from + i - p - 1]);
                assert(new_meta[j] == meta[from + j - p - 1]);
            } else if i == p {
                if j > p {
                    let from = position_by_source(meta, install.destination_height as int)->0;
                    assert(new_meta[j] == meta[from + j - p - 1]);
                    assert(meta[from].source_height <= meta[from + j - p - 1].source_height);
                    assert(meta[from].destination_height <= meta[from + j - p - 1].destination_height);
                }
            } else {
                // i < p <= j
                let to = position_by_destination(meta, install.source_height as int)->0;
                assert(new_meta[i] == meta[i]);
                assert(meta[i].source_height <= meta[to].source_height);
                assert(meta[i].destination_height <= meta[to].destination_height);
                if j > p {
                    let from = position_by_source(meta, install.destination_height as int)->0;
                    assert(new_meta[j] == meta[from + j - p - 1]);
                    assert(meta[from].source_height <= meta[from + j - p - 1].source_height);
                    assert(meta[from].destination_height <= meta[from + j - p - 1].destination_height);
                }
            }
        }

        assert forall|i: int| 0 <= i < new_meta.len() implies #[trigger] new_meta[i].source_height
            < new_meta[i].destination_height && self.spec_base()
            < new_meta[i].destination_height by {
            if i < p {
                assert(new_meta[i] == meta[i]);
            } else if i > p {
                let from = position_by_source(meta, install.destination_height as int)->0;
                assert(new_meta[i] == meta[from + i - p - 1]);
            }
        }
    }

    /// After acquiring an install that grows or improves the highway, the top
    /// is the higher of the old top and the destination of the install.
    proof fn lemma_acquired_top(&self, install: Install)
        requires
            self.wf(),
            install.valid(),
            self.spec_can_grow_by(install.spec_transition()) || self.spec_can_improve_by(
                install.spec_transition(),
            ),
        ensures
            acquired(self.installs(), install).len() > 0,
            acquired(self.installs(), install).last().destination_height == if install.destination_height
                > self.spec_top() {
                install.destination_height as nat
            } else {
                self.spec_top()
            },
    {
        let installs = self.installs();
        let meta = self.meta();
        let t = install.spec_transition();
        let new = acquired(installs, install);
        if self.spec_can_grow_by(t) {
            lemma_growth_reaches_destination(self, install);
        } else {
            let d = position_by_destination(meta, t.destination_height as int)->0;
            assert(meta[d].destination_height == t.destination_height);
            assert(meta[meta.len() - 1] == metadata_of(installs.last()));
            let prefix = match position_by_destination(meta, install.source_height as int) {
                Some(to) => installs.take(to + 1),
                None => Seq::<Install>::empty(),
            };
            match position_by_source(meta, install.destination_height as int) {
                Some(from) => {
                    let suffix = installs.skip(from);
                    assert(new == prefix + seq![install] + suffix);
                    assert(new.last() == suffix.last());
                    assert(suffix.last() == installs.last());
                },
                None => {
                    if d < meta.len() - 1 {
                        assert(meta[d].destination_height == meta[d + 1].source_height);
                        assert(false);
                    }
                    assert(new == prefix + seq![install] + Seq::<Install>::empty());
                    assert(new.last() == install);
                },
            }
        }
    }

    /// Acquiring an install keeps the highway chained: the part kept before the
    /// install ends at its source, and the part kept after it starts at its destination.
    proof fn lemma_acquired_chained(&self, install: Install)
        requires
            self.wf(),
            install.valid(),
        ensures
            chained(metadata_seq(acquired(self.installs(), install))),
    {
        let installs = self.installs();
        let meta = self.meta();
        let m = metadata_of(install);
        let prefix_meta = match position_by_destination(meta, install.source_height as int) {
            Some(to) => meta.take(to + 1),
            None => Seq::<Metadata>::empty(),
        };
        let suffix_meta = match position_by_source(meta, install.destination_height as int) {
            Some(from) => meta.skip(from),
            None => Seq::<Metadata>::empty(),
        };
        let new_meta = metadata_seq(acquired(installs, install));
        assert(new_meta =~= prefix_meta + seq![m] + suffix_meta);
        let p = prefix_meta.len() as int;
        let s = suffix_meta.len() as int;
        let from = position_by_source(meta, install.destination_height as int)->0;
        if p > 0 {
            let to = position_by_destination(meta, install.source_height as int)->0;
            assert(prefix_meta[p - 1] == meta[to]);
        }
        if s > 0 {
            assert(suffix_meta[0] == meta[from]);
        }
        assert forall|i: int, j: int|
            0 <= i && j == i + 1 && j < new_meta.len() implies #[trigger] new_meta[i].destination_height
            == #[trigger] new_meta[j].source_height by {
            if j < p {
                assert(new_meta[i] == meta[i] && new_meta[j] == meta[j]);
            } else if i > p {
                assert(new_meta[i] == meta[from + i - p - 1]);
                assert(new_meta[j] == meta[from + j - p - 1]);
            } else if i == p {
                assert(new_meta[j] == suffix_meta[0]);
            } else {
                assert(new_meta[i] == prefix_meta[p - 1]);
            }
        }
    }

    /// The lookup table of a highway: for every height from `base` to the top
    /// of the highway, the index from which a client at that height must start.
    fn build_lookup(base: usize, metadata: &Vec<Metadata>) -> (result: ShiftVec<usize>)
        requires
            ordered_highway(metadata@, base as nat),
            metadata@.len() > 0,
        ensures
            result.offset() == base,
            result.spec_len() == metadata@.last().destination_height,
            forall|h: int|
                base <= h < metadata@.last().destination_height ==> starts_at(
                    metadata@,
                    h,
                    #[trigger] result.at(h) as int,
                ),
    {
        let ghost meta = metadata@;
        let mut lookup: ShiftVec<usize> = ShiftVec::new(base);
        let mut last_tailless: usize = 0;
        let mut index: usize = 0;

        while index < metadata.len()
            invariant
                meta == metadata@,
                ordered_highway(meta, base as nat),
                0 <= index <= meta.len(),
                0 <= last_tailless <= index,
                lookup.offset() == base,
                lookup.wf(),
                last_tailless == 0 ==> lookup.spec_len() == base,
                last_tailless > 0 ==> meta[last_tailless - 1].tailless
                    && lookup.spec_len() == meta[last_tailless - 1].destination_height,
                forall|j: int| last_tailless <= j < index ==> !(#[trigger] meta[j].tailless),
                forall|h: int|
                    base <= h < lookup.spec_len() ==> starts_at(
                        meta,
                        h,
                        #[trigger] lookup.at(h) as int,
                    ),
            decreases meta.len() - index,
        {
            let current = metadata[index];
            if current.tailless {
                proof {
                    if last_tailless > 0 {
                        assert(meta[last_tailless - 1].destination_height
                            < meta[index as int].destination_height);
                    }
                }
                let ghost filled = lookup.spec_len();
                while lookup.len() < current.destination_height
                    invariant
                        meta == metadata@,
                        ordered_highway(meta, base as nat),
                        0 <= index < meta.len(),
                        current == meta[index as int],
                        current.tailless,
                        0 <= last_tailless <= index,
                        lookup.offset() == base,
                        lookup.wf(),
                        filled <= lookup.spec_len() <= current.destination_height,
                        last_tailless == 0 ==> filled == base,
                        last_tailless > 0 ==> meta[last_tailless - 1].tailless && filled
                            == meta[last_tailless - 1].destination_height,
                        forall|j: int| last_tailless <= j < index ==> !(#[trigger] meta[j].tailless),
                        forall|h: int|
                            base <= h < lookup.spec_len() ==> starts_at(
                                meta,
                                h,
                                #[trigger] lookup.at(h) as int,
                            ),
                    decreases current.destination_height - lookup.spec_len(),
                {
                    let ghost position = lookup.spec_len() as int;
                    let ghost old_lookup = lookup;
                    lookup.push(last_tailless);
                    proof {
                        assert forall|h: int| base <= h < lookup.spec_len() implies starts_at(
                            meta,
                            h,
                            #[trigger] lookup.at(h) as int,
                        ) by {
                            if h < position {
                                assert(lookup.at(h) == old_lookup.at(h));
                            } else {
                                assert(lookup.at(h) == last_tailless);
                                assert forall|j: int|
                                    last_tailless <= j < meta.len() implies !(
                                    #[trigger] meta[j].tailless && meta[j].destination_height
                                        <= h) by {
                                    if j > index {
                                        assert(meta[index as int].destination_height
                                            < meta[j].destination_height);
                                    }
                                }
                            }
                        }
                    }
                }
                last_tailless = index + 1;
            }
            index = index + 1;
        }

        let top = metadata[metadata.len() - 1].destination_height;
        proof {
            if last_tailless > 0 && last_tailless - 1 < meta.len() - 1 {
                assert(meta[last_tailless - 1].destination_height
                    < meta[meta.len() - 1].destination_height);
            }
        }
        let ghost filled = lookup.spec_len();

        while lookup.len() < top
            invariant
                meta == metadata@,
                ordered_highway(meta, base as nat),
                meta.len() > 0,
                top == meta.last().destination_height,
                0 <= last_tailless <= meta.len(),
                lookup.offset() == base,
                lookup.wf(),
                filled <= lookup.spec_len() <= top,
                last_tailless == 0 ==> filled == base,
                last_tailless > 0 ==> meta[last_tailless - 1].tailless && filled
                    == meta[last_tailless - 1].destination_height,
                forall|j: int| last_tailless <= j < meta.len() ==> !(#[trigger] meta[j].tailless),
                forall|h: int|
                    base <= h < lookup.spec_len() ==> starts_at(
                        meta,
                        h,
                        #[trigger] lookup.at(h) as int,
                    ),
            decreases top - lookup.spec_len(),
        {
            let ghost position = lookup.spec_len() as int;
            let ghost old_lookup = lookup;
            lookup.push(last_tailless);
            proof {
                assert forall|h: int| base <= h < lookup.spec_len() implies starts_at(
                    meta,
                    h,
                    #[trigger] lookup.at(h) as int,
                ) by {
                    if h < position {
                        assert(lookup.at(h) == old_lookup.at(h));
                    }
                }
            }
        }

        lookup
    }

    fn can_grow_by(&self, transition: &Transition) -> (result: bool)
        requires
            self.wf(),
        ensures
            result == self.spec_can_grow_by(*transition),
    {
        transition.destination_height > self.top()
    }

    fn can_improve_by(&self, transition: &Transition) -> (result: bool)
        requires
            self.wf(),
        ensures
            result == self.spec_can_improve_by(*transition),
    {
        match (
            self.locate_by_source(transition.source_height),
            self.locate_by_destination(transition.destination_height),
        ) {
            (Some(source), Some(destination)) => {
                (source < destination) || (transition.tailless
                    && !self.metadata[destination].tailless)
            },
            _ => false,
        }
    }

    fn locate_by_source(&self, height: usize) -> (result: Option<usize>)
        requires
            self.wf(),
        ensures
            match result {
                Some(index) => index < self.meta().len() && position_by_source(self.meta(), height as int)
                    == Some(index as int),
                None => position_by_source(self.meta(), height as int) is None,
            },
    {
        let ghost meta = self.meta();
        let mut low: usize = 0;
        let mut high: usize = self.metadata.len();
        while low < high
            invariant
                self.wf(),
                meta == self.meta(),
                meta == self.metadata@,
                0 <= low <= high <= meta.len(),
                forall|i: int| 0 <= i < low ==> #[trigger] meta[i].source_height < height,
                forall|i: int| high <= i < meta.len() ==> #[trigger] meta[i].source_height > height,
            decreases high - low,
        {
            let middle = low + (high - low) / 2;
            let key = self.metadata[middle].source_height;
            if key == height {
                proof {
                    let chosen = position_by_source(meta, height as int)->0;
                    assert(meta[middle as int].source_height == height);
                    if chosen < middle {
                        assert(meta[chosen].source_height < meta[middle as int].source_height);
                    } else if chosen > middle {
                        assert(meta[middle as int].source_height < meta[chosen].source_height);
                    }
                }
                return Some(middle);
            } else if key < height {
                proof {
                    assert forall|i: int| 0 <= i < middle + 1 implies #[trigger] meta[i].source_height
                        < height by {
                        if i < middle {
                            assert(meta[i].source_height < meta[middle as int].source_height);
                        }
                    }
                }
                low = middle + 1;
            } else {
                proof {
                    assert forall|i: int|
                        middle <= i < meta.len() implies #[trigger] meta[i].source_height
                        > height by {
                        if i > middle {
                            assert(meta[middle as int].source_height < meta[i].source_height);
                        }
                    }
                }
                high = middle;
            }
        }
        None
    }

    fn locate_by_destination(&self, height: usize) -> (result: Option<usize>)
        requires
            self.wf(),
        ensures
            match result {
                Some(index) => index < self.meta().len() && position_by_destination(
                    self.meta(),
                    height as int,
                ) == Some(index as int),
                None => position_by_destination(self.meta(), height as int) is None,
            },
    {
        let ghost meta = self.meta();
        let mut low: usize = 0;
        let mut high: usize = self.metadata.len();
        while low < high
            invariant
                self.wf(),
                meta == self.meta(),
                meta == self.metadata@,
                0 <= low <= high <= meta.len(),
                forall|i: int| 0 <= i < low ==> #[trigger] meta[i].destination_height < height,
                forall|i: int|
                    high <= i < meta.len() ==> #[trigger] meta[i].destination_height > height,
            decreases high - low,
        {
            let middle = low + (high - low) / 2;
            let key = self.metadata[middle].destination_height;
            if key == height {
                proof {
                    let chosen = position_by_destination(meta, height as int)->0;
                    assert(meta[middle as int].destination_height == height);
                    if chosen < middle {
                        assert(meta[chosen].destination_height
                            < meta[middle as int].destination_height);
                    } else if chosen > middle {
                        assert(meta[middle as int].destination_height
                            < meta[chosen].destination_height);
                    }
                }
                return Some(middle);
            } else if key < height {
                proof {
                    assert forall|i: int|
                        0 <= i < middle + 1 implies #[trigger] meta[i].destination_height
                        < height by {
                        if i < middle {
                            assert(meta[i].destination_height
                                < meta[middle as int].destination_height);
                        }
                    }
                }
                low = middle + 1;
            } else {
                proof {
                    assert forall|i: int|
                        middle <= i < meta.len() implies #[trigger] meta[i].destination_height
                        > height by {
                        if i > middle {
                            assert(meta[middle as int].destination_height
                                < meta[i].destination_height);
                        }
                    }
                }
                high = middle;
            }
        }
        None
    }
}

} // verus!
