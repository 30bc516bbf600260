//! The media sections of a description generated in answer to a remote one
//! (or of an offer made once a remote description is known): each remote
//! section is matched to local transceivers, by kind and direction in plan
//! b or by mid in unified plan; an offer then adds the local transceivers
//! left over and, when data channels were asked for, a data section. The
//! transceivers are given as plain values and named by their index; the
//! caller builds the description from the plan.
use vstd::prelude::*;
use crate::peer::{
    matched_transceiver_direction, new_transceiver_direction, spec_matched_direction,
    data_section_id, section_matching, spec_section_matching, RTPCodecType, SDPSemantics,
    SectionMatching,
};
use crate::rtp_transceiver_direction::RTPTransceiverDirection;
use crate::sdp::text::{chars_eq, decimal, str_chars, string_from_chars};

verus! {

/// A media section of the remote description, as far as matching reads it.
#[derive(Debug)]
pub struct RemoteSection {
    /// The value of its `mid` attribute, if it has one.
    pub mid: Option<String>,
    /// Its media: `audio`, `video`, `application`, ...
    pub media: String,
    /// The direction the remote side gives it.
    pub direction: RTPTransceiverDirection,
    /// The rids of its simulcast streams.
    pub rids: Vec<String>,
}

/// A local transceiver, as far as matching reads it.
#[derive(Debug)]
pub struct LocalTransceiver {
    /// Its mid, empty when it has none yet.
    pub mid: String,
    pub kind: RTPCodecType,
    pub direction: RTPTransceiverDirection,
}

/// A media section of the generated description.
#[derive(Debug, PartialEq, Eq)]
pub struct PlannedSection {
    /// Its mid.
    pub id: String,
    /// The local transceivers it carries, by index.
    pub transceivers: Vec<usize>,
    /// A new inactive transceiver of this kind carries it, when no local one
    /// matched a plan-b section.
    pub new_inactive: Option<RTPCodecType>,
    /// Whether it is the data channel section.
    pub data: bool,
    /// The rids of the remote section it answers.
    pub rids: Vec<String>,
}

/// A planned section as plain values.
pub struct PlannedView {
    pub id: Seq<char>,
    pub transceivers: Seq<usize>,
    pub new_inactive: Option<RTPCodecType>,
    pub data: bool,
    pub rids: Seq<Seq<char>>,
}

/// The text of some strings.
pub open spec fn texts(v: Seq<String>) -> Seq<Seq<char>> {
    Seq::new(v.len(), |k: int| v[k]@)
}

impl View for PlannedSection {
    type V = PlannedView;

    open spec fn view(&self) -> PlannedView {
        PlannedView {
            id: self.id@,
            transceivers: self.transceivers@,
            new_inactive: self.new_inactive,
            data: self.data,
            rids: texts(self.rids@),
        }
    }
}

/// The views of some planned sections.
pub open spec fn planned_views(v: Seq<PlannedSection>) -> Seq<PlannedView> {
    Seq::new(v.len(), |k: int| v[k]@)
}

/// Why no description can be generated.
#[derive(Debug, Copy, Clone, PartialEq, Eq, Structural)]
pub enum MatchError {
    /// A remote media section has no mid, or an empty one.
    RemoteDescriptionWithoutMidValue,
    /// The remote description is not laid out as the semantics asks.
    IncorrectSDPSemantics,
    /// No local transceiver has the mid of a remote section (unified plan).
    TransceiverMidNil,
}

/// The first position in `pool` whose entry has property `p`.
pub open spec fn first_pos(pool: Seq<usize>, p: spec_fn(usize) -> bool) -> Option<int> {
    if exists|j: int| 0 <= j < pool.len() && p(pool[j]) && forall|q: int| 0 <= q < j ==> !p(#[trigger] pool[q]) {
        Some(choose|j: int| 0 <= j < pool.len() && p(pool[j]) && forall|q: int| 0 <= q < j ==> !p(#[trigger] pool[q]))
    } else {
        None
    }
}

proof fn lemma_first_pos_found(pool: Seq<usize>, p: spec_fn(usize) -> bool, j: int)
    requires
        0 <= j < pool.len(),
        p(pool[j]),
        forall|q: int| 0 <= q < j ==> !p(#[trigger] pool[q]),
    ensures
        first_pos(pool, p) == Some(j),
{
    let c = choose|c: int| 0 <= c < pool.len() && p(pool[c]) && forall|q: int| 0 <= q < c ==> !p(#[trigger] pool[q]);
    assert(0 <= c < pool.len() && p(pool[c]) && forall|q: int| 0 <= q < c ==> !p(#[trigger] pool[q]));
    if c < j {
        assert(!p(pool[c]));
    } else if c > j {
        assert(!p(pool[j]));
    }
}

proof fn lemma_first_pos_none(pool: Seq<usize>, p: spec_fn(usize) -> bool)
    requires
        forall|q: int| 0 <= q < pool.len() ==> !p(#[trigger] pool[q]),
    ensures
        first_pos(pool, p) is None,
{
    if exists|j: int| 0 <= j < pool.len() && p(pool[j]) && forall|q: int| 0 <= q < j ==> !p(#[trigger] pool[q]) {
        let j = choose|j: int| 0 <= j < pool.len() && p(pool[j]) && forall|q: int| 0 <= q < j ==> !p(#[trigger] pool[q]);
        assert(!p(pool[j]));
    }
}

/// The transceiver has mid `mid`.
pub open spec fn has_mid(local: Seq<LocalTransceiver>, mid: Seq<char>) -> spec_fn(usize) -> bool {
    |i: usize| local[i as int].mid@ == mid
}

/// The transceiver has no mid yet, and has kind `kind` and direction `d`.
pub open spec fn fits(local: Seq<LocalTransceiver>, kind: RTPCodecType, d: RTPTransceiverDirection) -> spec_fn(usize) -> bool {
    |i: usize| local[i as int].mid@.len() == 0 && local[i as int].kind == kind && local[i as int].direction == d
}

/// The entries of a pool all name transceivers.
pub open spec fn pool_in(pool: Seq<usize>, n: nat) -> bool {
    forall|k: int| 0 <= k < pool.len() ==> #[trigger] pool[k] < n
}

/// The position in `pool` of the first transceiver with mid `mid`.
fn find_by_mid(local: &[LocalTransceiver], pool: &Vec<usize>, mid: &[char]) -> (r: Option<usize>)
    requires
        pool_in(pool@, local@.len()),
    ensures
        match r {
            Some(j) => first_pos(pool@, has_mid(local@, mid@)) == Some(j as int),
            None => first_pos(pool@, has_mid(local@, mid@)) is None,
        },
{
    let ghost p = has_mid(local@, mid@);
    let mut j: usize = 0;
    while j < pool.len()
        invariant
            j <= pool@.len(),
            pool_in(pool@, local@.len()),
            p == has_mid(local@, mid@),
            forall|q: int| 0 <= q < j ==> !p(#[trigger] pool@[q]),
        decreases pool@.len() - j,
    {
        let i = pool[j];
        let m = str_chars(local[i].mid.as_str());
        if chars_eq(m.as_slice(), mid) {
            proof {
                assert(p(pool@[j as int]));
                lemma_first_pos_found(pool@, p, j as int);
            }
            return Some(j);
        }
        assert(!p(pool@[j as int]));
        j = j + 1;
    }
    proof {
        lemma_first_pos_none(pool@, p);
    }
    None
}

/// The position in `pool` of the first transceiver that has no mid and has
/// kind `kind` and direction `d`.
fn find_fitting(
    local: &[LocalTransceiver],
    pool: &Vec<usize>,
    kind: RTPCodecType,
    d: RTPTransceiverDirection,
) -> (r: Option<usize>)
    requires
        pool_in(pool@, local@.len()),
    ensures
        match r {
            Some(j) => first_pos(pool@, fits(local@, kind, d)) == Some(j as int),
            None => first_pos(pool@, fits(local@, kind, d)) is None,
        },
{
    let ghost p = fits(local@, kind, d);
    let mut j: usize = 0;
    while j < pool.len()
        invariant
            j <= pool@.len(),
            pool_in(pool@, local@.len()),
            p == fits(local@, kind, d),
            forall|q: int| 0 <= q < j ==> !p(#[trigger] pool@[q]),
        decreases pool@.len() - j,
    {
        let i = pool[j];
        let t = &local[i];
        let m = str_chars(t.mid.as_str());
        if m.len() == 0 && t.kind == kind && t.direction == d {
            proof {
                assert(p(pool@[j as int]));
                lemma_first_pos_found(pool@, p, j as int);
            }
            return Some(j);
        }
        assert(!p(pool@[j as int]));
        j = j + 1;
    }
    proof {
        lemma_first_pos_none(pool@, p);
    }
    None
}

/// The directions of local transceivers that suit a remote section of
/// direction `remote`, the most preferred first.
pub open spec fn preferred_directions(remote: RTPTransceiverDirection) -> Seq<RTPTransceiverDirection> {
    if remote == RTPTransceiverDirection::Sendrecv {
        seq![RTPTransceiverDirection::Recvonly, RTPTransceiverDirection::Sendrecv]
    } else if remote == RTPTransceiverDirection::Sendonly {
        seq![RTPTransceiverDirection::Recvonly]
    } else if remote == RTPTransceiverDirection::Recvonly {
        seq![RTPTransceiverDirection::Sendonly, RTPTransceiverDirection::Sendrecv]
    } else {
        Seq::empty()
    }
}

/// The position in `pool` of the transceiver that suits a remote section of
/// kind `kind` and direction `remote`: the first without a mid, of that
/// kind, in the most preferred direction that any such transceiver has.
pub open spec fn satisfy_pos(
    local: Seq<LocalTransceiver>,
    pool: Seq<usize>,
    kind: RTPCodecType,
    remote: RTPTransceiverDirection,
) -> Option<int> {
    let prefs = preferred_directions(remote);
    if prefs.len() >= 1 && first_pos(pool, fits(local, kind, prefs[0])) is Some {
        first_pos(pool, fits(local, kind, prefs[0]))
    } else if prefs.len() >= 2 {
        first_pos(pool, fits(local, kind, prefs[1]))
    } else {
        None
    }
}

/// Takes from `pool`, one after another, every transceiver that suits the
/// remote section: the ones taken, in order, and the pool left.
pub open spec fn pluck_all(
    local: Seq<LocalTransceiver>,
    pool: Seq<usize>,
    kind: RTPCodecType,
    remote: RTPTransceiverDirection,
) -> (Seq<usize>, Seq<usize>)
    decreases pool.len(),
{
    match satisfy_pos(local, pool, kind, remote) {
        Some(j) => if 0 <= j < pool.len() {
            let (taken, rest) = pluck_all(local, pool.remove(j), kind, remote);
            (seq![pool[j]] + taken, rest)
        } else {
            (Seq::empty(), pool)
        },
        None => (Seq::empty(), pool),
    }
}

/// The position of the transceiver that suits a remote section.
fn satisfy(
    local: &[LocalTransceiver],
    pool: &Vec<usize>,
    kind: RTPCodecType,
    remote: RTPTransceiverDirection,
) -> (r: Option<usize>)
    requires
        pool_in(pool@, local@.len()),
    ensures
        match r {
            Some(j) => satisfy_pos(local@, pool@, kind, remote) == Some(j as int) && j < pool@.len(),
            None => satisfy_pos(local@, pool@, kind, remote) is None,
        },
{
    let ghost prefs = preferred_directions(remote);
    if remote == RTPTransceiverDirection::Sendrecv {
        assert(prefs[0] == RTPTransceiverDirection::Recvonly && prefs[1] == RTPTransceiverDirection::Sendrecv);
        match find_fitting(local, pool, kind, RTPTransceiverDirection::Recvonly) {
            Some(j) => { assert(j < pool@.len()); Some(j) },
            None => find_fitting(local, pool, kind, RTPTransceiverDirection::Sendrecv),
        }
    } else if remote == RTPTransceiverDirection::Sendonly {
        assert(prefs[0] == RTPTransceiverDirection::Recvonly && prefs.len() == 1);
        find_fitting(local, pool, kind, RTPTransceiverDirection::Recvonly)
    } else if remote == RTPTransceiverDirection::Recvonly {
        assert(prefs[0] == RTPTransceiverDirection::Sendonly && prefs[1] == RTPTransceiverDirection::Sendrecv);
        match find_fitting(local, pool, kind, RTPTransceiverDirection::Sendonly) {
            Some(j) => Some(j),
            None => find_fitting(local, pool, kind, RTPTransceiverDirection::Sendrecv),
        }
    } else {
        None
    }
}

/// Takes every transceiver that suits a remote section out of the pool.
fn pluck_all_suiting(
    local: &[LocalTransceiver],
    pool: &mut Vec<usize>,
    kind: RTPCodecType,
    remote: RTPTransceiverDirection,
) -> (taken: Vec<usize>)
    requires
        pool_in(old(pool)@, local@.len()),
    ensures
        pluck_all(local@, old(pool)@, kind, remote) == (taken@, final(pool)@),
        pool_in(final(pool)@, local@.len()),
{
    let ghost pool0 = pool@;
    let mut taken: Vec<usize> = Vec::new();
    let mut done = false;
    assert(taken@ + pluck_all(local@, pool@, kind, remote).0 =~= pluck_all(local@, pool@, kind, remote).0);
    while !done
        invariant
            pool_in(pool@, local@.len()),
            pluck_all(local@, pool0, kind, remote) == (taken@ + pluck_all(local@, pool@, kind, remote).0, pluck_all(local@, pool@, kind, remote).1),
            done ==> satisfy_pos(local@, pool@, kind, remote) is None,
        decreases pool@.len() * 2 + (if done { 0int } else { 1int }),
    {
        match satisfy(local, pool, kind, remote) {
            Some(j) => {
                let ghost before = pool@;
                let i = pool.remove(j);
                proof {
                    assert(pool@ == before.remove(j as int));
                    assert forall|k: int| 0 <= k < pool@.len() implies #[trigger] pool@[k] < local@.len() by {
                        if k < j { assert(pool@[k] == before[k]); } else { assert(pool@[k] == before[k + 1]); }
                    }
                    let rest = pluck_all(local@, pool@, kind, remote);
                    assert(pluck_all(local@, before, kind, remote) == (seq![i] + rest.0, rest.1));
                    assert(taken@.push(i) + rest.0 =~= taken@ + (seq![i] + rest.0));
                }
                taken.push(i);
            },
            None => {
                done = true;
            },
        }
    }
    proof {
        assert(taken@ + Seq::<usize>::empty() =~= taken@);
    }
    taken
}

/// The kind of media a section's media name gives.
pub open spec fn codec_kind(media: Seq<char>) -> RTPCodecType {
    if media == "audio"@ {
        RTPCodecType::Audio
    } else if media == "video"@ {
        RTPCodecType::Video
    } else {
        RTPCodecType::Unspecified
    }
}

fn codec_kind_of(media: &[char]) -> (r: RTPCodecType)
    ensures
        r == codec_kind(media@),
{
    let audio = str_chars("audio");
    let video = str_chars("video");
    if chars_eq(media, audio.as_slice()) {
        RTPCodecType::Audio
    } else if chars_eq(media, video.as_slice()) {
        RTPCodecType::Video
    } else {
        RTPCodecType::Unspecified
    }
}

/// The data channel section with mid `id`.
pub open spec fn data_view(id: Seq<char>) -> PlannedView {
    PlannedView {
        id,
        transceivers: Seq::empty(),
        new_inactive: None,
        data: true,
        rids: Seq::empty(),
    }
}

/// Where matching stands: the local transceivers not yet matched, the
/// sections planned so far, and whether one of them is a data section.
pub type PlanState = (Seq<usize>, Seq<PlannedView>, bool);

/// Matching one remote section. It must have a non-empty mid. An
/// application section becomes a data section. A section of unknown kind or
/// direction is passed over. Otherwise the semantics decides: in plan b it
/// takes every unmatched transceiver that suits it (or, if none does, a new
/// inactive one of its kind); in unified plan it takes the transceiver with
/// its mid, which must be there, and keeps its rids.
pub open spec fn plan_step(
    local: Seq<LocalTransceiver>,
    st: PlanState,
    sec: RemoteSection,
    semantics: SDPSemantics,
    detected_plan_b: bool,
) -> Result<PlanState, MatchError> {
    let (pool, secs, has_data) = st;
    match sec.mid {
        None => Err(MatchError::RemoteDescriptionWithoutMidValue),
        Some(m) => if m@.len() == 0 {
            Err(MatchError::RemoteDescriptionWithoutMidValue)
        } else if sec.media@ == "application"@ {
            Ok((pool, secs.push(data_view(m@)), true))
        } else if codec_kind(sec.media@) == RTPCodecType::Unspecified || sec.direction
            == RTPTransceiverDirection::Unspecified {
            Ok(st)
        } else {
            let kind = codec_kind(sec.media@);
            match spec_section_matching(semantics, detected_plan_b) {
                Err(_) => Err(MatchError::IncorrectSDPSemantics),
                Ok(SectionMatching::PlanB) => {
                    let (taken, rest) = pluck_all(local, pool, kind, sec.direction);
                    Ok(
                        (
                            rest,
                            secs.push(
                                PlannedView {
                                    id: m@,
                                    transceivers: taken,
                                    new_inactive: if taken.len() == 0 {
                                        Some(kind)
                                    } else {
                                        None
                                    },
                                    data: false,
                                    rids: Seq::empty(),
                                },
                            ),
                            has_data,
                        ),
                    )
                },
                Ok(SectionMatching::UnifiedPlan) => match first_pos(pool, has_mid(local, m@)) {
                    Some(j) => Ok(
                        (
                            pool.remove(j),
                            secs.push(
                                PlannedView {
                                    id: m@,
                                    transceivers: seq![pool[j]],
                                    new_inactive: None,
                                    data: false,
                                    rids: texts(sec.rids@),
                                },
                            ),
                            has_data,
                        ),
                    ),
                    None => Err(MatchError::TransceiverMidNil),
                },
            }
        },
    }
}

/// Matching the remote sections in order, from all local transceivers
/// unmatched and no section planned; the first error ends it.
pub open spec fn plan_remote(
    local: Seq<LocalTransceiver>,
    remote: Seq<RemoteSection>,
    semantics: SDPSemantics,
    detected_plan_b: bool,
) -> Result<PlanState, MatchError>
    decreases remote.len(),
{
    if remote.len() == 0 {
        Ok((Seq::new(local.len(), |i: int| i as usize), Seq::empty(), false))
    } else {
        match plan_remote(local, remote.drop_last(), semantics, detected_plan_b) {
            Err(e) => Err(e),
            Ok(st) => plan_step(local, st, remote.last(), semantics, detected_plan_b),
        }
    }
}

/// A section for each local transceiver left unmatched, with its mid.
pub open spec fn unmatched_views(local: Seq<LocalTransceiver>, pool: Seq<usize>) -> Seq<PlannedView> {
    Seq::new(
        pool.len(),
        |k: int|
            PlannedView {
                id: local[pool[k] as int].mid@,
                transceivers: seq![pool[k]],
                new_inactive: None,
                data: false,
                rids: Seq::empty(),
            },
    )
}

/// The sections of the generated description: the remote sections matched
/// in order; then, when offering (`include_unmatched`), a section for each
/// transceiver left unmatched unless the remote side is plan b, and, when
/// data channels were asked for and no data section is there yet, a data
/// section with mid `data` in plan b and its index otherwise.
pub open spec fn spec_plan_matched_sections(
    remote: Seq<RemoteSection>,
    local: Seq<LocalTransceiver>,
    semantics: SDPSemantics,
    detected_plan_b: bool,
    include_unmatched: bool,
    data_channels_requested: bool,
) -> Result<Seq<PlannedView>, MatchError> {
    match plan_remote(local, remote, semantics, detected_plan_b) {
        Err(e) => Err(e),
        Ok(st) => {
            let (pool, secs, has_data) = st;
            let with_unmatched = if include_unmatched && !detected_plan_b {
                secs + unmatched_views(local, pool)
            } else {
                secs
            };
            if include_unmatched && data_channels_requested && !has_data {
                Ok(
                    with_unmatched.push(
                        data_view(
                            if detected_plan_b {
                                "data"@
                            } else {
                                decimal(with_unmatched.len())
                            },
                        ),
                    ),
                )
            } else {
                Ok(with_unmatched)
            }
        },
    }
}

/// A copy of some strings.
fn copy_strings(v: &Vec<String>) -> (r: Vec<String>)
    ensures
        texts(r@) == texts(v@),
{
    let mut r: Vec<String> = Vec::new();
    let mut i: usize = 0;
    while i < v.len()
        invariant
            i <= v@.len(),
            r@.len() == i,
            forall|k: int| 0 <= k < i ==> (#[trigger] r@[k])@ == v@[k]@,
        decreases v@.len() - i,
    {
        let c = str_chars(v[i].as_str());
        r.push(string_from_chars(c.as_slice()));
        i = i + 1;
    }
    assert(texts(r@) =~= texts(v@));
    r
}

/// Matches one remote section, updating the pool, the planned sections and
/// whether a data section is among them.
fn apply_section(
    local: &[LocalTransceiver],
    pool: &mut Vec<usize>,
    sections: &mut Vec<PlannedSection>,
    has_data: &mut bool,
    sec: &RemoteSection,
    semantics: SDPSemantics,
    detected_plan_b: bool,
) -> (r: Result<(), MatchError>)
    requires
        pool_in(old(pool)@, local@.len()),
    ensures
        match plan_step(
            local@,
            (old(pool)@, planned_views(old(sections)@), *old(has_data)),
            *sec,
            semantics,
            detected_plan_b,
        ) {
            Ok(st) => r is Ok && st == (final(pool)@, planned_views(final(sections)@), *final(has_data))
                && pool_in(final(pool)@, local@.len()),
            Err(e) => r == Err::<(), MatchError>(e),
        },
{
    let ghost secs0 = sections@;
    let m = match &sec.mid {
        None => {
            return Err(MatchError::RemoteDescriptionWithoutMidValue);
        },
        Some(m) => m,
    };
    let mc = str_chars(m.as_str());
    if mc.len() == 0 {
        return Err(MatchError::RemoteDescriptionWithoutMidValue);
    }
    let media = str_chars(sec.media.as_str());
    let application = str_chars("application");
    if chars_eq(media.as_slice(), application.as_slice()) {
        let ps = PlannedSection {
            id: string_from_chars(mc.as_slice()),
            transceivers: Vec::new(),
            new_inactive: None,
            data: true,
            rids: Vec::new(),
        };
        assert(texts(ps.rids@) =~= Seq::<Seq<char>>::empty());
        sections.push(ps);
        *has_data = true;
        assert(planned_views(sections@) =~= planned_views(secs0).push(data_view(m@)));
        return Ok(());
    }
    let kind = codec_kind_of(media.as_slice());
    if kind == RTPCodecType::Unspecified || sec.direction == RTPTransceiverDirection::Unspecified {
        return Ok(());
    }
    match section_matching(semantics, detected_plan_b) {
        Err(_) => Err(MatchError::IncorrectSDPSemantics),
        Ok(SectionMatching::PlanB) => {
            let taken = pluck_all_suiting(local, pool, kind, sec.direction);
            let new_inactive = if taken.len() == 0 {
                Some(kind)
            } else {
                None
            };
            let ps = PlannedSection {
                id: string_from_chars(mc.as_slice()),
                transceivers: taken,
                new_inactive,
                data: false,
                rids: Vec::new(),
            };
            assert(texts(ps.rids@) =~= Seq::<Seq<char>>::empty());
            let ghost v = ps@;
            sections.push(ps);
            assert(planned_views(sections@) =~= planned_views(secs0).push(v));
            Ok(())
        },
        Ok(SectionMatching::UnifiedPlan) => {
            match find_by_mid(local, pool, mc.as_slice()) {
                Some(j) => {
                    let ghost before = pool@;
                    let i = pool.remove(j);
                    proof {
                        assert forall|k: int| 0 <= k < pool@.len() implies #[trigger] pool@[k] < local@.len() by {
                            if k < j { assert(pool@[k] == before[k]); } else { assert(pool@[k] == before[k + 1]); }
                        }
                    }
                    let mut ts: Vec<usize> = Vec::new();
                    ts.push(i);
                    let ps = PlannedSection {
                        id: string_from_chars(mc.as_slice()),
                        transceivers: ts,
                        new_inactive: None,
                        data: false,
                        rids: copy_strings(&sec.rids),
                    };
                    assert(ps.transceivers@ =~= seq![before[j as int]]);
                    let ghost v = ps@;
                    sections.push(ps);
                    assert(planned_views(sections@) =~= planned_views(secs0).push(v));
                    Ok(())
                },
                None => Err(MatchError::TransceiverMidNil),
            }
        },
    }
}

proof fn lemma_plan_remote_err(
    local: Seq<LocalTransceiver>,
    remote: Seq<RemoteSection>,
    semantics: SDPSemantics,
    detected_plan_b: bool,
    i: int,
    n: int,
)
    requires
        0 <= i <= n <= remote.len(),
        plan_remote(local, remote.take(i), semantics, detected_plan_b) is Err,
    ensures
        plan_remote(local, remote.take(n), semantics, detected_plan_b) == plan_remote(
            local,
            remote.take(i),
            semantics,
            detected_plan_b,
        ),
    decreases n - i,
{
    if n > i {
        lemma_plan_remote_err(local, remote, semantics, detected_plan_b, i, n - 1);
        assert(remote.take(n).drop_last() =~= remote.take(n - 1));
    }
}

/// Plans the media sections of a description generated once a remote
/// description is known: the remote sections matched to the local
/// transceivers, then, when offering, the transceivers left over and a data
/// section if data channels were asked for.
pub fn plan_matched_sections(
    remote: &[RemoteSection],
    local: &[LocalTransceiver],
    semantics: SDPSemantics,
    detected_plan_b: bool,
    include_unmatched: bool,
    data_channels_requested: bool,
) -> (r: Result<Vec<PlannedSection>, MatchError>)
    ensures
        match spec_plan_matched_sections(
            remote@,
            local@,
            semantics,
            detected_plan_b,
            include_unmatched,
            data_channels_requested,
        ) {
            Ok(p) => r matches Ok(v) && planned_views(v@) == p,
            Err(e) => r == Err::<Vec<PlannedSection>, MatchError>(e),
        },
{
    let mut pool: Vec<usize> = Vec::new();
    let mut k: usize = 0;
    while k < local.len()
        invariant
            k <= local@.len(),
            pool@ == Seq::new(k as nat, |i: int| i as usize),
        decreases local@.len() - k,
    {
        pool.push(k);
        k = k + 1;
        assert(pool@ =~= Seq::new(k as nat, |i: int| i as usize));
    }
    let mut sections: Vec<PlannedSection> = Vec::new();
    let mut has_data = false;
    let mut i: usize = 0;
    assert(remote@.take(0) =~= Seq::<RemoteSection>::empty());
    assert(planned_views(sections@) =~= Seq::<PlannedView>::empty());
    while i < remote.len()
        invariant
            i <= remote@.len(),
            pool_in(pool@, local@.len()),
            plan_remote(local@, remote@.take(i as int), semantics, detected_plan_b) == Ok::<
                PlanState,
                MatchError,
            >((pool@, planned_views(sections@), has_data)),
        decreases remote@.len() - i,
    {
        assert(remote@.take(i + 1).drop_last() =~= remote@.take(i as int));
        assert(remote@.take(i + 1).last() == remote@[i as int]);
        match apply_section(local, &mut pool, &mut sections, &mut has_data, &remote[i], semantics, detected_plan_b) {
            Ok(()) => {},
            Err(e) => {
                proof {
                    lemma_plan_remote_err(local@, remote@, semantics, detected_plan_b, i + 1, remote@.len() as int);
                    assert(remote@.take(remote@.len() as int) =~= remote@);
                }
                return Err(e);
            },
        }
        i = i + 1;
    }
    assert(remote@.take(remote@.len() as int) =~= remote@);
    let ghost matched = planned_views(sections@);
    if include_unmatched && !detected_plan_b {
        let mut j: usize = 0;
        while j < pool.len()
            invariant
                j <= pool@.len(),
                pool_in(pool@, local@.len()),
                planned_views(sections@) == matched + unmatched_views(local@, pool@).take(j as int),
            decreases pool@.len() - j,
        {
            let t = pool[j];
            let c = str_chars(local[t].mid.as_str());
            let mut ts: Vec<usize> = Vec::new();
            ts.push(t);
            let ps = PlannedSection {
                id: string_from_chars(c.as_slice()),
                transceivers: ts,
                new_inactive: None,
                data: false,
                rids: Vec::new(),
            };
            assert(texts(ps.rids@) =~= Seq::<Seq<char>>::empty());
            assert(ps.transceivers@ =~= seq![pool@[j as int]]);
            let ghost before = planned_views(sections@);
            let ghost v = ps@;
            sections.push(ps);
            assert(planned_views(sections@) =~= before.push(v));
            assert(unmatched_views(local@, pool@).take(j + 1) =~= unmatched_views(local@, pool@).take(j as int).push(v));
            assert(planned_views(sections@) =~= matched + unmatched_views(local@, pool@).take(j + 1));
            j = j + 1;
        }
        assert(unmatched_views(local@, pool@).take(j as int) =~= unmatched_views(local@, pool@));
    }
    if include_unmatched && data_channels_requested && !has_data {
        let id = data_section_id(detected_plan_b, sections.len());
        let ps = PlannedSection { id, transceivers: Vec::new(), new_inactive: None, data: true, rids: Vec::new() };
        assert(texts(ps.rids@) =~= Seq::<Seq<char>>::empty());
        let ghost before = planned_views(sections@);
        let ghost v = ps@;
        sections.push(ps);
        assert(planned_views(sections@) =~= before.push(v));
    }
    Ok(sections)
}

/// What setting a remote offer does for one of its media sections.
#[derive(Debug, PartialEq, Eq)]
pub struct TransceiverUpdate {
    /// The section's mid.
    pub mid: String,
    /// The local transceiver that takes the section, by index; `None` when a
    /// new one is created for it.
    pub transceiver: Option<usize>,
    /// Whether the transceiver is stopped (it was found by the mid).
    pub stop: bool,
    /// The transceiver's direction afterwards.
    pub direction: RTPTransceiverDirection,
    /// The kind of the section.
    pub kind: RTPCodecType,
    /// Whether the section's mid is given to the transceiver (it had none).
    pub set_mid: bool,
}

/// An update as plain values.
pub struct UpdateView {
    pub mid: Seq<char>,
    pub transceiver: Option<usize>,
    pub stop: bool,
    pub direction: RTPTransceiverDirection,
    pub kind: RTPCodecType,
    pub set_mid: bool,
}

impl View for TransceiverUpdate {
    type V = UpdateView;

    open spec fn view(&self) -> UpdateView {
        UpdateView {
            mid: self.mid@,
            transceiver: self.transceiver,
            stop: self.stop,
            direction: self.direction,
            kind: self.kind,
            set_mid: self.set_mid,
        }
    }
}

/// The views of some updates.
pub open spec fn update_views(v: Seq<TransceiverUpdate>) -> Seq<UpdateView> {
    Seq::new(v.len(), |k: int| v[k]@)
}

/// Taking one section of a remote offer. A section without a mid is passed
/// over, and one with an empty mid is an error. Application sections and
/// sections of unknown kind or direction are passed over. Otherwise the
/// local transceiver with the section's mid takes it and is stopped, or else
/// the one that suits its kind and direction; its direction follows the
/// remote one, and it gets the mid if it had none. When none is found, a new
/// transceiver of the section's kind is created with the mid.
pub open spec fn offer_section_step(
    local: Seq<LocalTransceiver>,
    st: (Seq<usize>, Seq<UpdateView>),
    sec: RemoteSection,
) -> Result<(Seq<usize>, Seq<UpdateView>), MatchError> {
    let (pool, ups) = st;
    match sec.mid {
        None => Ok(st),
        Some(m) => if m@.len() == 0 {
            Err(MatchError::RemoteDescriptionWithoutMidValue)
        } else if sec.media@ == "application"@ || codec_kind(sec.media@) == RTPCodecType::Unspecified
            || sec.direction == RTPTransceiverDirection::Unspecified {
            Ok(st)
        } else {
            let kind = codec_kind(sec.media@);
            let (found, stop) = match first_pos(pool, has_mid(local, m@)) {
                Some(j) => (Some(j), true),
                None => (satisfy_pos(local, pool, kind, sec.direction), false),
            };
            match found {
                Some(j) => {
                    let t = pool[j];
                    Ok(
                        (
                            pool.remove(j),
                            ups.push(
                                UpdateView {
                                    mid: m@,
                                    transceiver: Some(t),
                                    stop,
                                    direction: spec_matched_direction(
                                        sec.direction,
                                        local[t as int].direction,
                                    ),
                                    kind,
                                    set_mid: local[t as int].mid@.len() == 0,
                                },
                            ),
                        ),
                    )
                },
                None => Ok(
                    (
                        pool,
                        ups.push(
                            UpdateView {
                                mid: m@,
                                transceiver: None,
                                stop: false,
                                direction: if sec.direction == RTPTransceiverDirection::Recvonly {
                                    RTPTransceiverDirection::Sendonly
                                } else {
                                    RTPTransceiverDirection::Recvonly
                                },
                                kind,
                                set_mid: true,
                            },
                        ),
                    ),
                ),
            }
        },
    }
}

/// Taking the sections of a remote offer in order; the first error ends it.
pub open spec fn plan_offer_sections(local: Seq<LocalTransceiver>, remote: Seq<RemoteSection>) -> Result<
    (Seq<usize>, Seq<UpdateView>),
    MatchError,
>
    decreases remote.len(),
{
    if remote.len() == 0 {
        Ok((Seq::new(local.len(), |i: int| i as usize), Seq::empty()))
    } else {
        match plan_offer_sections(local, remote.drop_last()) {
            Err(e) => Err(e),
            Ok(st) => offer_section_step(local, st, remote.last()),
        }
    }
}

fn apply_offer_section(
    local: &[LocalTransceiver],
    pool: &mut Vec<usize>,
    updates: &mut Vec<TransceiverUpdate>,
    sec: &RemoteSection,
) -> (r: Result<(), MatchError>)
    requires
        pool_in(old(pool)@, local@.len()),
    ensures
        match offer_section_step(local@, (old(pool)@, update_views(old(updates)@)), *sec) {
            Ok(st) => r is Ok && st == (final(pool)@, update_views(final(updates)@)) && pool_in(
                final(pool)@,
                local@.len(),
            ),
            Err(e) => r == Err::<(), MatchError>(e),
        },
{
    let ghost ups0 = updates@;
    let m = match &sec.mid {
        None => {
            return Ok(());
        },
        Some(m) => m,
    };
    let mc = str_chars(m.as_str());
    if mc.len() == 0 {
        return Err(MatchError::RemoteDescriptionWithoutMidValue);
    }
    let media = str_chars(sec.media.as_str());
    let application = str_chars("application");
    if chars_eq(media.as_slice(), application.as_slice()) {
        return Ok(());
    }
    let kind = codec_kind_of(media.as_slice());
    if kind == RTPCodecType::Unspecified || sec.direction == RTPTransceiverDirection::Unspecified {
        return Ok(());
    }
    let (found, stop) = match find_by_mid(local, pool, mc.as_slice()) {
        Some(j) => (Some(j), true),
        None => (satisfy(local, pool, kind, sec.direction), false),
    };
    match found {
        Some(j) => {
            let ghost before = pool@;
            let t = pool.remove(j);
            proof {
                assert forall|k: int| 0 <= k < pool@.len() implies #[trigger] pool@[k] < local@.len() by {
                    if k < j { assert(pool@[k] == before[k]); } else { assert(pool@[k] == before[k + 1]); }
                }
            }
            let tm = str_chars(local[t].mid.as_str());
            let up = TransceiverUpdate {
                mid: string_from_chars(mc.as_slice()),
                transceiver: Some(t),
                stop,
                direction: matched_transceiver_direction(sec.direction, local[t].direction),
                kind,
                set_mid: tm.len() == 0,
            };
            let ghost v = up@;
            updates.push(up);
            assert(update_views(updates@) =~= update_views(ups0).push(v));
            Ok(())
        },
        None => {
            let up = TransceiverUpdate {
                mid: string_from_chars(mc.as_slice()),
                transceiver: None,
                stop: false,
                direction: new_transceiver_direction(sec.direction),
                kind,
                set_mid: true,
            };
            let ghost v = up@;
            updates.push(up);
            assert(update_views(updates@) =~= update_views(ups0).push(v));
            Ok(())
        },
    }
}

/// What setting a remote offer (in unified plan) does for the local
/// transceivers, section by section; see `offer_section_step`.
pub fn plan_remote_offer_transceivers(remote: &[RemoteSection], local: &[LocalTransceiver]) -> (r: Result<
    Vec<TransceiverUpdate>,
    MatchError,
>)
    ensures
        match plan_offer_sections(local@, remote@) {
            Ok(st) => r matches Ok(v) && update_views(v@) == st.1,
            Err(e) => r == Err::<Vec<TransceiverUpdate>, MatchError>(e),
        },
{
    let mut pool: Vec<usize> = Vec::new();
    let mut k: usize = 0;
    while k < local.len()
        invariant
            k <= local@.len(),
            pool@ == Seq::new(k as nat, |i: int| i as usize),
        decreases local@.len() - k,
    {
        pool.push(k);
        k = k + 1;
        assert(pool@ =~= Seq::new(k as nat, |i: int| i as usize));
    }
    let mut updates: Vec<TransceiverUpdate> = Vec::new();
    let mut i: usize = 0;
    assert(remote@.take(0) =~= Seq::<RemoteSection>::empty());
    assert(update_views(updates@) =~= Seq::<UpdateView>::empty());
    while i < remote.len()
        invariant
            i <= remote@.len(),
            pool_in(pool@, local@.len()),
            plan_offer_sections(local@, remote@.take(i as int)) == Ok::<(Seq<usize>, Seq<UpdateView>), MatchError>(
                (pool@, update_views(updates@)),
            ),
        decreases remote@.len() - i,
    {
        assert(remote@.take(i + 1).drop_last() =~= remote@.take(i as int));
        assert(remote@.take(i + 1).last() == remote@[i as int]);
        match apply_offer_section(local, &mut pool, &mut updates, &remote[i]) {
            Ok(()) => {},
            Err(e) => {
                proof {
                    lemma_offer_sections_err(local@, remote@, i + 1, remote@.len() as int);
                    assert(remote@.take(remote@.len() as int) =~= remote@);
                }
                return Err(e);
            },
        }
        i = i + 1;
    }
    assert(remote@.take(remote@.len() as int) =~= remote@);
    Ok(updates)
}

proof fn lemma_offer_sections_err(local: Seq<LocalTransceiver>, remote: Seq<RemoteSection>, i: int, n: int)
    requires
        0 <= i <= n <= remote.len(),
        plan_offer_sections(local, remote.take(i)) is Err,
    ensures
        plan_offer_sections(local, remote.take(n)) == plan_offer_sections(local, remote.take(i)),
    decreases n - i,
{
    if n > i {
        lemma_offer_sections_err(local, remote, i, n - 1);
        assert(remote.take(n).drop_last() =~= remote.take(n - 1));
    }
}

/// The transceivers of some planned sections, one section after another.
pub open spec fn all_indices(p: Seq<PlannedView>) -> Seq<usize>
    decreases p.len(),
{
    if p.len() == 0 {
        Seq::empty()
    } else {
        all_indices(p.drop_last()) + p.last().transceivers
    }
}

/// No entry of `a` is an entry of `b`.
pub open spec fn disjoint(a: Seq<usize>, b: Seq<usize>) -> bool {
    forall|i: int, j: int| 0 <= i < a.len() && 0 <= j < b.len() ==> a[i] != b[j]
}

/// Each of `n` transceivers is at most once either still unmatched or
/// given to a section.
pub open spec fn plan_inv(pool: Seq<usize>, used: Seq<usize>, n: nat) -> bool {
    &&& pool.no_duplicates()
    &&& used.no_duplicates()
    &&& disjoint(pool, used)
    &&& pool_in(pool, n)
    &&& pool_in(used, n)
}

proof fn lemma_first_pos_range(pool: Seq<usize>, p: spec_fn(usize) -> bool)
    ensures
        first_pos(pool, p) matches Some(j) ==> 0 <= j < pool.len(),
{
}

proof fn lemma_satisfy_range(
    local: Seq<LocalTransceiver>,
    pool: Seq<usize>,
    kind: RTPCodecType,
    remote: RTPTransceiverDirection,
)
    ensures
        satisfy_pos(local, pool, kind, remote) matches Some(j) ==> 0 <= j < pool.len(),
{
    let prefs = preferred_directions(remote);
    if prefs.len() >= 1 {
        lemma_first_pos_range(pool, fits(local, kind, prefs[0]));
    }
    if prefs.len() >= 2 {
        lemma_first_pos_range(pool, fits(local, kind, prefs[1]));
    }
}

/// Moving one unmatched transceiver to a section keeps each transceiver in
/// one place.
proof fn lemma_move_one(pool: Seq<usize>, used: Seq<usize>, n: nat, j: int)
    requires
        plan_inv(pool, used, n),
        0 <= j < pool.len(),
    ensures
        plan_inv(pool.remove(j), used.push(pool[j]), n),
{
    let r = pool.remove(j);
    let u = used.push(pool[j]);
    assert forall|k: int| 0 <= k < r.len() implies #[trigger] r[k] == (if k < j { pool[k] } else { pool[k + 1] }) by {}
    assert forall|a: int, b: int| 0 <= a < r.len() && 0 <= b < r.len() && a != b implies r[a] != r[b] by {
        let pa = if a < j { a } else { a + 1 };
        let pb = if b < j { b } else { b + 1 };
        assert(r[a] == pool[pa] && r[b] == pool[pb]);
    }
    assert forall|a: int, b: int| 0 <= a < u.len() && 0 <= b < u.len() && a != b implies u[a] != u[b] by {
        if a < used.len() && b < used.len() {
        } else if a < used.len() {
            assert(u[b] == pool[j]);
            assert(u[a] == used[a]);
        } else if b < used.len() {
            assert(u[a] == pool[j]);
            assert(u[b] == used[b]);
        }
    }
    assert forall|a: int, b: int| 0 <= a < r.len() && 0 <= b < u.len() implies r[a] != u[b] by {
        let pa = if a < j { a } else { a + 1 };
        assert(r[a] == pool[pa]);
        if b < used.len() {
            assert(u[b] == used[b]);
        } else {
            assert(u[b] == pool[j]);
        }
    }
    assert forall|k: int| 0 <= k < r.len() implies #[trigger] r[k] < n by {
        let pk = if k < j { k } else { k + 1 };
        assert(r[k] == pool[pk]);
    }
    assert forall|k: int| 0 <= k < u.len() implies #[trigger] u[k] < n by {
        if k < used.len() {
            assert(u[k] == used[k]);
        }
    }
}

/// Taking every suiting transceiver keeps each transceiver in one place.
proof fn lemma_pluck_keeps_inv(
    local: Seq<LocalTransceiver>,
    pool: Seq<usize>,
    used: Seq<usize>,
    n: nat,
    kind: RTPCodecType,
    remote: RTPTransceiverDirection,
)
    requires
        plan_inv(pool, used, n),
    ensures
        plan_inv(pluck_all(local, pool, kind, remote).1, used + pluck_all(local, pool, kind, remote).0, n),
    decreases pool.len(),
{
    lemma_satisfy_range(local, pool, kind, remote);
    match satisfy_pos(local, pool, kind, remote) {
        Some(j) => {
            let x = pool[j];
            lemma_move_one(pool, used, n, j);
            lemma_pluck_keeps_inv(local, pool.remove(j), used.push(x), n, kind, remote);
            let (t, r) = pluck_all(local, pool.remove(j), kind, remote);
            assert(used.push(x) + t =~= used + (seq![x] + t));
        },
        None => {
            assert(used + Seq::<usize>::empty() =~= used);
        },
    }
}

proof fn lemma_indices_push(secs: Seq<PlannedView>, v: PlannedView)
    ensures
        all_indices(secs.push(v)) == all_indices(secs) + v.transceivers,
{
    assert(secs.push(v).drop_last() =~= secs);
}

/// One matched remote section keeps each transceiver in one place.
proof fn lemma_step_keeps_inv(
    local: Seq<LocalTransceiver>,
    st: PlanState,
    sec: RemoteSection,
    semantics: SDPSemantics,
    detected_plan_b: bool,
)
    requires
        plan_inv(st.0, all_indices(st.1), local.len()),
    ensures
        plan_step(local, st, sec, semantics, detected_plan_b) matches Ok(next) ==> plan_inv(
            next.0,
            all_indices(next.1),
            local.len(),
        ),
{
    let (pool, secs, has_data) = st;
    let used = all_indices(secs);
    if let Some(m) = sec.mid {
        if m@.len() != 0 {
            if sec.media@ == "application"@ {
                lemma_indices_push(secs, data_view(m@));
                assert(used + Seq::<usize>::empty() =~= used);
            } else if codec_kind(sec.media@) != RTPCodecType::Unspecified && sec.direction
                != RTPTransceiverDirection::Unspecified {
                let kind = codec_kind(sec.media@);
                match spec_section_matching(semantics, detected_plan_b) {
                    Ok(SectionMatching::PlanB) => {
                        lemma_pluck_keeps_inv(local, pool, used, local.len(), kind, sec.direction);
                        let (taken, rest) = pluck_all(local, pool, kind, sec.direction);
                        let v = PlannedView {
                            id: m@,
                            transceivers: taken,
                            new_inactive: if taken.len() == 0 { Some(kind) } else { None },
                            data: false,
                            rids: Seq::empty(),
                        };
                        lemma_indices_push(secs, v);
                    },
                    Ok(SectionMatching::UnifiedPlan) => {
                        lemma_first_pos_range(pool, has_mid(local, m@));
                        if let Some(j) = first_pos(pool, has_mid(local, m@)) {
                            lemma_move_one(pool, used, local.len(), j);
                            let v = PlannedView {
                                id: m@,
                                transceivers: seq![pool[j]],
                                new_inactive: None,
                                data: false,
                                rids: texts(sec.rids@),
                            };
                            lemma_indices_push(secs, v);
                            assert(used.push(pool[j]) =~= used + seq![pool[j]]);
                        }
                    },
                    Err(_) => {},
                }
            }
        }
    }
}

proof fn lemma_plan_remote_inv(
    local: Seq<LocalTransceiver>,
    remote: Seq<RemoteSection>,
    semantics: SDPSemantics,
    detected_plan_b: bool,
)
    requires
        local.len() <= usize::MAX,
    ensures
        plan_remote(local, remote, semantics, detected_plan_b) matches Ok(st) ==> plan_inv(
            st.0,
            all_indices(st.1),
            local.len(),
        ),
    decreases remote.len(),
{
    if remote.len() == 0 {
        let pool = Seq::new(local.len(), |i: int| i as usize);
        assert(all_indices(Seq::<PlannedView>::empty()) =~= Seq::<usize>::empty());
        assert forall|a: int, b: int| 0 <= a < pool.len() && 0 <= b < pool.len() && a != b implies pool[a] != pool[b] by {}
    } else {
        lemma_plan_remote_inv(local, remote.drop_last(), semantics, detected_plan_b);
        if let Ok(st) = plan_remote(local, remote.drop_last(), semantics, detected_plan_b) {
            lemma_step_keeps_inv(local, st, remote.last(), semantics, detected_plan_b);
        }
    }
}

proof fn lemma_indices_unmatched(local: Seq<LocalTransceiver>, secs: Seq<PlannedView>, pool: Seq<usize>)
    ensures
        all_indices(secs + unmatched_views(local, pool)) == all_indices(secs) + pool,
    decreases pool.len(),
{
    if pool.len() == 0 {
        assert(secs + unmatched_views(local, pool) =~= secs);
        assert(all_indices(secs) + pool =~= all_indices(secs));
    } else {
        let q = pool.drop_last();
        lemma_indices_unmatched(local, secs, q);
        let u = unmatched_views(local, pool);
        assert(u.drop_last() =~= unmatched_views(local, q));
        assert((secs + u).drop_last() =~= secs + unmatched_views(local, q));
        assert((secs + u).last() == u.last());
        assert(u.last().transceivers =~= seq![pool.last()]);
        assert(all_indices(secs) + q + seq![pool.last()] =~= all_indices(secs) + pool);
    }
}

/// No local transceiver is given to two sections of a planned description,
/// and every section names transceivers that exist.
pub proof fn lemma_plan_uses_transceivers_once(
    remote: Seq<RemoteSection>,
    local: Seq<LocalTransceiver>,
    semantics: SDPSemantics,
    detected_plan_b: bool,
    include_unmatched: bool,
    data_channels_requested: bool,
)
    requires
        local.len() <= usize::MAX,
    ensures
        spec_plan_matched_sections(
            remote,
            local,
            semantics,
            detected_plan_b,
            include_unmatched,
            data_channels_requested,
        ) matches Ok(p) ==> all_indices(p).no_duplicates() && pool_in(all_indices(p), local.len()),
{
    lemma_plan_remote_inv(local, remote, semantics, detected_plan_b);
    if let Ok(st) = plan_remote(local, remote, semantics, detected_plan_b) {
        let (pool, secs, has_data) = st;
        let used = all_indices(secs);
        let with_unmatched = if include_unmatched && !detected_plan_b {
            secs + unmatched_views(local, pool)
        } else {
            secs
        };
        assert(all_indices(with_unmatched).no_duplicates() && pool_in(all_indices(with_unmatched), local.len())) by {
            if include_unmatched && !detected_plan_b {
                lemma_indices_unmatched(local, secs, pool);
                vstd::seq_lib::lemma_no_dup_in_concat(used, pool);
                assert forall|k: int| 0 <= k < (used + pool).len() implies #[trigger] (used + pool)[k] < local.len() by {
                    if k < used.len() {
                        assert((used + pool)[k] == used[k]);
                    } else {
                        assert((used + pool)[k] == pool[k - used.len()]);
                    }
                }
            }
        }
        if include_unmatched && data_channels_requested && !has_data {
            let d = data_view(
                if detected_plan_b {
                    "data"@
                } else {
                    decimal(with_unmatched.len())
                },
            );
            lemma_indices_push(with_unmatched, d);
            assert(all_indices(with_unmatched) + Seq::<usize>::empty() =~= all_indices(with_unmatched));
        }
    }
}

/// The local transceivers that some updates name, in order.
pub open spec fn updated_indices(ups: Seq<UpdateView>) -> Seq<usize>
    decreases ups.len(),
{
    if ups.len() == 0 {
        Seq::empty()
    } else {
        updated_indices(ups.drop_last()) + match ups.last().transceiver {
            Some(t) => seq![t],
            None => Seq::empty(),
        }
    }
}

proof fn lemma_offer_step_keeps_inv(
    local: Seq<LocalTransceiver>,
    st: (Seq<usize>, Seq<UpdateView>),
    sec: RemoteSection,
)
    requires
        plan_inv(st.0, updated_indices(st.1), local.len()),
    ensures
        offer_section_step(local, st, sec) matches Ok(next) ==> plan_inv(
            next.0,
            updated_indices(next.1),
            local.len(),
        ),
{
    let (pool, ups) = st;
    let used = updated_indices(ups);
    if let Some(m) = sec.mid {
        if m@.len() != 0 && !(sec.media@ == "application"@ || codec_kind(sec.media@)
            == RTPCodecType::Unspecified || sec.direction == RTPTransceiverDirection::Unspecified) {
            let kind = codec_kind(sec.media@);
            lemma_first_pos_range(pool, has_mid(local, m@));
            lemma_satisfy_range(local, pool, kind, sec.direction);
            let found = match first_pos(pool, has_mid(local, m@)) {
                Some(j) => Some(j),
                None => satisfy_pos(local, pool, kind, sec.direction),
            };
            if let Ok(next) = offer_section_step(local, st, sec) {
                assert(next.1.drop_last() =~= ups);
                match found {
                    Some(j) => {
                        lemma_move_one(pool, used, local.len(), j);
                        assert(used.push(pool[j]) =~= used + seq![pool[j]]);
                    },
                    None => {
                        assert(used + Seq::<usize>::empty() =~= used);
                    },
                }
            }
        }
    }
}

/// Setting a remote offer updates no local transceiver twice, and names
/// only transceivers that exist.
pub proof fn lemma_offer_updates_transceivers_once(local: Seq<LocalTransceiver>, remote: Seq<RemoteSection>)
    requires
        local.len() <= usize::MAX,
    ensures
        plan_offer_sections(local, remote) matches Ok(st) ==> updated_indices(st.1).no_duplicates()
            && pool_in(updated_indices(st.1), local.len()),
{
    lemma_offer_inv(local, remote);
}

proof fn lemma_offer_inv(local: Seq<LocalTransceiver>, remote: Seq<RemoteSection>)
    requires
        local.len() <= usize::MAX,
    ensures
        plan_offer_sections(local, remote) matches Ok(st) ==> plan_inv(st.0, updated_indices(st.1), local.len()),
    decreases remote.len(),
{
    if remote.len() == 0 {
        let pool = Seq::new(local.len(), |i: int| i as usize);
        assert(updated_indices(Seq::<UpdateView>::empty()) =~= Seq::<usize>::empty());
        assert forall|a: int, b: int| 0 <= a < pool.len() && 0 <= b < pool.len() && a != b implies pool[a] != pool[b] by {}
    } else {
        lemma_offer_inv(local, remote.drop_last());
        if let Ok(st) = plan_offer_sections(local, remote.drop_last()) {
            lemma_offer_step_keeps_inv(local, st, remote.last());
        }
    }
}

} // verus!
