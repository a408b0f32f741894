//! Environment sensors: climbable-overlap tracking and ground contact.
//!
//! The physics engine reports overlap begin/end events as unordered pairs of
//! shape identifiers, so every event is tested in both orders. An end event
//! for a surface that is not in the overlap set is a no-op, not an error:
//! duplicate and late events are expected. Identifiers are plain numbers
//! here; the engine's entity handles map to them one to one.

use vstd::prelude::*;

verus! {

/// An overlap event between two physics shapes, in no particular order.
#[derive(Clone, Copy, PartialEq, Eq, Structural, Debug)]
pub enum OverlapEvent {
    Started(u64, u64),
    Stopped(u64, u64),
}

/// The set of identifiers a list holds.
pub open spec fn id_set(ids: Seq<u64>) -> Set<u64> {
    Set::new(|x: u64| ids.contains(x))
}

/// The list holds no identifier twice.
pub open spec fn ids_unique(ids: Seq<u64>) -> bool {
    forall|i: int, j: int| 0 <= i < j < ids.len() ==> #[trigger] ids[i] != #[trigger] ids[j]
}

/// Whether `ids` holds `id`.
pub fn ids_contain(ids: &Vec<u64>, id: u64) -> (found: bool)
    ensures
        found == id_set(ids@).contains(id),
{
    let mut i: usize = 0;
    while i < ids.len()
        invariant
            0 <= i <= ids@.len(),
            forall|j: int| 0 <= j < i ==> ids@[j] != id,
        decreases ids@.len() - i,
    {
        if ids[i] == id {
            assert(ids@.contains(id));
            return true;
        }
        i = i + 1;
    }
    assert(!ids@.contains(id));
    false
}

/// Add `id` to the list unless it is already there.
fn ids_insert(ids: &mut Vec<u64>, id: u64)
    requires
        ids_unique(old(ids)@),
    ensures
        ids_unique(final(ids)@),
        id_set(final(ids)@) == id_set(old(ids)@).insert(id),
        final(ids)@.len() >= old(ids)@.len(),
{
    let present = ids_contain(ids, id);
    if !present {
        ids.push(id);
        proof {
            assert forall|x: u64| id_set(ids@).contains(x) implies id_set(old(ids)@).insert(
                id,
            ).contains(x) by {
                if x != id {
                    let j = choose|j: int| 0 <= j < ids@.len() && ids@[j] == x;
                    assert(old(ids)@[j] == x);
                    assert(old(ids)@.contains(x));
                }
            }
            assert forall|x: u64| id_set(old(ids)@).insert(id).contains(x) implies id_set(
                ids@,
            ).contains(x) by {
                if x == id {
                    assert(ids@[old(ids)@.len() as int] == x);
                } else {
                    let j = choose|j: int| 0 <= j < old(ids)@.len() && old(ids)@[j] == x;
                    assert(ids@[j] == x);
                }
            }
            assert(id_set(ids@) =~= id_set(old(ids)@).insert(id));
            assert forall|i: int, j: int| 0 <= i < j < ids@.len() implies ids@[i] != ids@[j] by {
                if j == old(ids)@.len() as int {
                    assert(!old(ids)@.contains(id));
                    assert(old(ids)@[i] != id);
                }
            }
        }
    } else {
        proof {
            assert(id_set(ids@) =~= id_set(ids@).insert(id));
        }
    }
}

/// Drop `id` from the list; absent identifiers are left alone.
fn ids_remove(ids: &mut Vec<u64>, id: u64)
    requires
        ids_unique(old(ids)@),
    ensures
        ids_unique(final(ids)@),
        id_set(final(ids)@) == id_set(old(ids)@).remove(id),
        final(ids)@.len() <= old(ids)@.len(),
{
    let mut i: usize = 0;
    while i < ids.len()
        invariant
            0 <= i <= ids@.len(),
            ids@ == old(ids)@,
            ids_unique(old(ids)@),
            forall|j: int| 0 <= j < i ==> ids@[j] != id,
        decreases ids@.len() - i,
    {
        if ids[i] == id {
            ids.remove(i);
            proof {
                let oldl = old(ids)@;
                let newl = ids@;
                assert forall|x: u64| id_set(newl).contains(x) implies id_set(oldl).remove(
                    id,
                ).contains(x) by {
                    let j = choose|j: int| 0 <= j < newl.len() && newl[j] == x;
                    if j < i as int {
                        assert(oldl[j] == x);
                    } else {
                        assert(oldl[j + 1] == x);
                    }
                    assert(oldl.contains(x));
                    assert(x != id) by {
                        if x == id {
                            if j < i as int {
                                assert(oldl[j] != id);
                            } else {
                                assert(oldl[j + 1] == id);
                                assert(oldl[i as int] == id);
                                assert(oldl[i as int] != oldl[j + 1]);
                            }
                        }
                    }
                }
                assert forall|x: u64| id_set(oldl).remove(id).contains(x) implies id_set(
                    newl,
                ).contains(x) by {
                    let j = choose|j: int| 0 <= j < oldl.len() && oldl[j] == x;
                    assert(j != i as int);
                    if j < i as int {
                        assert(newl[j] == x);
                    } else {
                        assert(newl[j - 1] == x);
                    }
                }
                assert(id_set(newl) =~= id_set(oldl).remove(id));
                assert forall|a: int, b: int| 0 <= a < b < newl.len() implies newl[a]
                    != newl[b] by {
                    let ao = if a < i as int { a } else { a + 1 };
                    let bo = if b < i as int { b } else { b + 1 };
                    assert(newl[a] == oldl[ao] && newl[b] == oldl[bo]);
                    assert(0 <= ao < bo < oldl.len());
                    assert(oldl[ao] != oldl[bo]);
                }
            }
            return ;
        }
        i = i + 1;
    }
    proof {
        assert(!ids@.contains(id));
        assert(id_set(ids@) =~= id_set(ids@).remove(id));
    }
}

/// How one overlap event changes the overlap set of the probe `probe_id`,
/// given the set of surfaces of the watched category. Both orders of the
/// pair are honoured; an end event for an absent surface changes nothing.
pub open spec fn spec_apply_overlap_event(
    s: Set<u64>,
    probe_id: u64,
    surfaces: Set<u64>,
    ev: OverlapEvent,
) -> Set<u64> {
    match ev {
        OverlapEvent::Started(a, b) => {
            let s1 = if a == probe_id && surfaces.contains(b) {
                s.insert(b)
            } else {
                s
            };
            if b == probe_id && surfaces.contains(a) {
                s1.insert(a)
            } else {
                s1
            }
        },
        OverlapEvent::Stopped(a, b) => {
            let s1 = if a == probe_id && surfaces.contains(b) {
                s.remove(b)
            } else {
                s
            };
            if b == probe_id && surfaces.contains(a) {
                s1.remove(a)
            } else {
                s1
            }
        },
    }
}

/// The overlap set after a whole frame's events, applied in order from
/// index `i` on.
pub open spec fn spec_apply_overlap_events(
    s: Set<u64>,
    probe_id: u64,
    surfaces: Set<u64>,
    evs: Seq<OverlapEvent>,
    i: int,
) -> Set<u64>
    decreases evs.len() - i,
{
    if i < 0 || i >= evs.len() {
        s
    } else {
        spec_apply_overlap_events(
            spec_apply_overlap_event(s, probe_id, surfaces, evs[i]),
            probe_id,
            surfaces,
            evs,
            i + 1,
        )
    }
}

/// Apply one overlap event to an identifier list.
fn apply_overlap_event(probe_id: u64, surfaces: &Vec<u64>, ids: &mut Vec<u64>, ev: &OverlapEvent)
    requires
        ids_unique(old(ids)@),
    ensures
        ids_unique(final(ids)@),
        id_set(final(ids)@) == spec_apply_overlap_event(
            id_set(old(ids)@),
            probe_id,
            id_set(surfaces@),
            *ev,
        ),
{
    match ev {
        OverlapEvent::Started(a, b) => {
            if *a == probe_id && ids_contain(surfaces, *b) {
                ids_insert(ids, *b);
            }
            if *b == probe_id && ids_contain(surfaces, *a) {
                ids_insert(ids, *a);
            }
        },
        OverlapEvent::Stopped(a, b) => {
            if *a == probe_id && ids_contain(surfaces, *b) {
                ids_remove(ids, *b);
            }
            if *b == probe_id && ids_contain(surfaces, *a) {
                ids_remove(ids, *a);
            }
        },
    }
}

/// Climbing state of one entity: whether it is climbing now, and which
/// climbable surfaces it currently overlaps.
#[derive(Debug)]
pub struct Climber {
    pub climbing: bool,
    pub intersecting_climbables: Vec<u64>,
}

impl Climber {
    /// The overlap list never repeats a surface.
    pub open spec fn wf(&self) -> bool {
        ids_unique(self.intersecting_climbables@)
    }

    /// The overlap set, as mathematics.
    pub open spec fn overlaps(&self) -> Set<u64> {
        id_set(self.intersecting_climbables@)
    }

    pub fn new() -> (c: Climber)
        ensures
            c.wf(),
            !c.climbing,
            c.overlaps() == Set::<u64>::empty(),
            c.intersecting_climbables@.len() == 0,
    {
        let c = Climber { climbing: false, intersecting_climbables: Vec::new() };
        proof {
            assert(c.overlaps() =~= Set::<u64>::empty());
        }
        c
    }

    /// Whether the entity overlaps any climbable surface right now.
    pub fn overlapping_any(&self) -> (any: bool)
        ensures
            any == (self.intersecting_climbables@.len() != 0),
    {
        self.intersecting_climbables.len() != 0
    }
}

/// Track which climbable surfaces the climbing-capable entity `climber_id`
/// overlaps: begin events insert the surface, end events remove it, in
/// either collider order.
pub fn detect_climb_range(
    climber_id: u64,
    climbables: &Vec<u64>,
    climber: &mut Climber,
    events: &Vec<OverlapEvent>,
)
    requires
        old(climber).wf(),
    ensures
        final(climber).wf(),
        final(climber).overlaps() == spec_apply_overlap_events(
            old(climber).overlaps(),
            climber_id,
            id_set(climbables@),
            events@,
            0,
        ),
        final(climber).climbing == old(climber).climbing,
{
    let ghost s0 = climber.overlaps();
    let mut i: usize = 0;
    while i < events.len()
        invariant
            0 <= i <= events@.len(),
            climber.wf(),
            climber.climbing == old(climber).climbing,
            spec_apply_overlap_events(
                climber.overlaps(),
                climber_id,
                id_set(climbables@),
                events@,
                i as int,
            ) == spec_apply_overlap_events(s0, climber_id, id_set(climbables@), events@, 0),
        decreases events@.len() - i,
    {
        apply_overlap_event(climber_id, climbables, &mut climber.intersecting_climbables, &events[i]);
        i = i + 1;
    }
}

/// Ground-contact probe of one entity: the ground-category surfaces its
/// sensor shape currently overlaps.
#[derive(Debug)]
pub struct GroundSensor {
    pub intersecting_ground: Vec<u64>,
}

impl GroundSensor {
    pub open spec fn wf(&self) -> bool {
        ids_unique(self.intersecting_ground@)
    }

    pub open spec fn overlaps(&self) -> Set<u64> {
        id_set(self.intersecting_ground@)
    }

    pub fn new() -> (s: GroundSensor)
        ensures
            s.wf(),
            s.overlaps() == Set::<u64>::empty(),
            s.intersecting_ground@.len() == 0,
    {
        let s = GroundSensor { intersecting_ground: Vec::new() };
        proof {
            assert(s.overlaps() =~= Set::<u64>::empty());
        }
        s
    }
}

/// Track which ground surfaces the sensor shape `sensor_id` overlaps,
/// analogously to [`detect_climb_range`].
pub fn ground_detection(
    sensor_id: u64,
    grounds: &Vec<u64>,
    sensor: &mut GroundSensor,
    events: &Vec<OverlapEvent>,
)
    requires
        old(sensor).wf(),
    ensures
        final(sensor).wf(),
        final(sensor).overlaps() == spec_apply_overlap_events(
            old(sensor).overlaps(),
            sensor_id,
            id_set(grounds@),
            events@,
            0,
        ),
{
    let ghost s0 = sensor.overlaps();
    let mut i: usize = 0;
    while i < events.len()
        invariant
            0 <= i <= events@.len(),
            sensor.wf(),
            spec_apply_overlap_events(
                sensor.overlaps(),
                sensor_id,
                id_set(grounds@),
                events@,
                i as int,
            ) == spec_apply_overlap_events(s0, sensor_id, id_set(grounds@), events@, 0),
        decreases events@.len() - i,
    {
        apply_overlap_event(sensor_id, grounds, &mut sensor.intersecting_ground, &events[i]);
        i = i + 1;
    }
}

/// Debounced ground contact of one entity, read by the locomotion resolver.
#[derive(Clone, Copy, PartialEq, Eq, Structural, Debug)]
pub struct GroundDetection {
    pub on_ground: bool,
}

/// An entity stands on ground exactly while its sensor overlaps some
/// ground surface.
pub fn update_on_ground(detection: &mut GroundDetection, sensor: &GroundSensor)
    ensures
        final(detection).on_ground == (sensor.intersecting_ground@.len() != 0),
{
    detection.on_ground = sensor.intersecting_ground.len() != 0;
}

/// Matched overlap begin and end events for one surface, each reported in
/// either collider order, leave an initially empty overlap set empty again.
pub proof fn lemma_overlap_begin_end_symmetric(
    probe_id: u64,
    surfaces: Set<u64>,
    surface: u64,
    begin: OverlapEvent,
    end: OverlapEvent,
)
    requires
        begin == OverlapEvent::Started(probe_id, surface) || begin == OverlapEvent::Started(
            surface,
            probe_id,
        ),
        end == OverlapEvent::Stopped(probe_id, surface) || end == OverlapEvent::Stopped(
            surface,
            probe_id,
        ),
    ensures
        spec_apply_overlap_event(
            spec_apply_overlap_event(Set::empty(), probe_id, surfaces, begin),
            probe_id,
            surfaces,
            end,
        ) == Set::<u64>::empty(),
{
    let s1 = spec_apply_overlap_event(Set::empty(), probe_id, surfaces, begin);
    let s2 = spec_apply_overlap_event(s1, probe_id, surfaces, end);
    if surfaces.contains(surface) {
        assert(s1 =~= Set::empty().insert(surface));
        assert(s2 =~= Set::<u64>::empty());
    } else {
        assert(s1 =~= Set::<u64>::empty());
        assert(s2 =~= Set::<u64>::empty());
    }
}

} // verus!
