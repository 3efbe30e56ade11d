use vstd::prelude::*;
use vstd::string::*;

use crate::import::ImportedFormat;
use crate::midi_song::{MidiAutomation, MidiNote};
use crate::sequencer::{
    midi_track_id, midi_track_name, tracker_track_id, tracker_track_name, SequenceMetadata, TrackId,
};
use crate::tracker_play::{TrackKey, TrackerAutomation, TrackerNote};

verus! {

/// No entry occurs twice.
pub open spec fn distinct<K>(keys: Seq<K>) -> bool {
    forall|i: int, j: int| 0 <= i < j < keys.len() ==> keys[i] != keys[j]
}

/// The track of an imported MIDI song that a note or an automation point
/// goes to.
#[derive(Debug, Clone, Copy, PartialEq, Eq)]
pub struct MidiLane {
    pub ch: u8,
    pub program: u8,
    pub drum: Option<u8>,
}

/// The lane of a note: a drum note's lane is its channel and key, whatever
/// program plays it; another note's is its channel and program.
pub open spec fn note_lane(n: MidiNote) -> MidiLane {
    match n.drum {
        Some(k) => MidiLane { ch: n.ch, program: 0, drum: Some(k) },
        None => MidiLane { ch: n.ch, program: n.program, drum: None },
    }
}

/// The lane of an automation point: its channel and program.
pub open spec fn automation_lane(a: MidiAutomation) -> MidiLane {
    MidiLane { ch: a.ch, program: a.program, drum: None }
}

fn same_midi_lane(a: MidiLane, b: MidiLane) -> (r: bool)
    ensures
        r == (a == b),
{
    a.ch == b.ch && a.program == b.program && match (a.drum, b.drum) {
        (Some(x), Some(y)) => x == y,
        (None, None) => true,
        _ => false,
    }
}

/// The index of `lane`, which is added at the end when it is not there yet.
fn midi_lane_index(lanes: &mut Vec<MidiLane>, lane: MidiLane) -> (i: usize)
    requires
        distinct(old(lanes)@),
    ensures
        final(lanes)@ == (if old(lanes)@.contains(lane) { old(lanes)@ } else { old(lanes)@.push(lane) }),
        i < final(lanes)@.len(),
        final(lanes)@[i as int] == lane,
        distinct(final(lanes)@),
{
    let mut k: usize = 0;
    while k < lanes.len()
        invariant
            k <= lanes@.len(),
            lanes@ == old(lanes)@,
            distinct(old(lanes)@),
            forall|j: int| 0 <= j < k ==> lanes@[j] != lane,
        decreases lanes@.len() - k,
    {
        if same_midi_lane(lanes[k], lane) {
            assert(old(lanes)@.contains(lane));
            return k;
        }
        k = k + 1;
    }
    assert(!old(lanes)@.contains(lane));
    lanes.push(lane);
    k
}

/// The tracks of an imported MIDI song: its lanes, each once, with their
/// ids, and the lane of every note and automation point.
pub struct MidiLanes {
    pub lanes: Vec<MidiLane>,
    pub ids: Vec<TrackId>,
    pub note_lanes: Vec<usize>,
    pub automation_lanes: Vec<usize>,
}

/// Puts the notes and automation points of a MIDI song on lanes: one lane
/// for each channel and program, and for each key on the drum channel.
/// Every lane holds a note or an automation point, none occurs twice, and
/// each has the id that `midi_track_id` gives it.
pub fn midi_lanes(notes: &Vec<MidiNote>, automation: &Vec<MidiAutomation>) -> (r: MidiLanes)
    ensures
        distinct(r.lanes@),
        r.ids@.len() == r.lanes@.len(),
        forall|k: int| 0 <= k < r.lanes@.len() ==> (#[trigger] r.ids@[k])@
            == midi_track_name(r.lanes@[k].ch, r.lanes@[k].program, r.lanes@[k].drum),
        r.note_lanes@.len() == notes@.len(),
        forall|i: int| 0 <= i < notes@.len() ==> (#[trigger] r.note_lanes@[i]) < r.lanes@.len()
            && r.lanes@[r.note_lanes@[i] as int] == note_lane(notes@[i]),
        r.automation_lanes@.len() == automation@.len(),
        forall|j: int| 0 <= j < automation@.len() ==> (#[trigger] r.automation_lanes@[j]) < r.lanes@.len()
            && r.lanes@[r.automation_lanes@[j] as int] == automation_lane(automation@[j]),
        forall|k: int| #![trigger r.lanes@[k]] 0 <= k < r.lanes@.len() ==>
            (exists|i: int| 0 <= i < notes@.len() && note_lane(#[trigger] notes@[i]) == r.lanes@[k])
            || (exists|j: int| 0 <= j < automation@.len() && automation_lane(#[trigger] automation@[j]) == r.lanes@[k]),
{
    let mut lanes: Vec<MidiLane> = Vec::new();
    let mut note_lanes: Vec<usize> = Vec::new();
    let mut i: usize = 0;
    while i < notes.len()
        invariant
            i <= notes@.len(),
            distinct(lanes@),
            note_lanes@.len() == i,
            forall|a: int| 0 <= a < i ==> (#[trigger] note_lanes@[a]) < lanes@.len()
                && lanes@[note_lanes@[a] as int] == note_lane(notes@[a]),
            forall|k: int| #![trigger lanes@[k]] 0 <= k < lanes@.len() ==>
                exists|a: int| 0 <= a < notes@.len() && note_lane(#[trigger] notes@[a]) == lanes@[k],
        decreases notes@.len() - i,
    {
        let n = notes[i];
        let lane = match n.drum {
            Some(k) => MidiLane { ch: n.ch, program: 0, drum: Some(k) },
            None => MidiLane { ch: n.ch, program: n.program, drum: None },
        };
        let ghost before = lanes@;
        let at = midi_lane_index(&mut lanes, lane);
        proof {
            assert forall|k: int| #![trigger lanes@[k]] 0 <= k < lanes@.len() implies
                exists|a: int| 0 <= a < notes@.len() && note_lane(#[trigger] notes@[a]) == lanes@[k] by {
                if k < before.len() {
                    assert(lanes@[k] == before[k]);
                } else {
                    assert(note_lane(notes@[i as int]) == lanes@[k]);
                }
            }
            assert forall|a: int| 0 <= a < i implies (#[trigger] note_lanes@[a]) < lanes@.len()
                && lanes@[note_lanes@[a] as int] == note_lane(notes@[a]) by {
                assert(lanes@[note_lanes@[a] as int] == before[note_lanes@[a] as int]);
            }
        }
        note_lanes.push(at);
        i = i + 1;
    }
    let mut automation_lanes: Vec<usize> = Vec::new();
    let mut j: usize = 0;
    while j < automation.len()
        invariant
            j <= automation@.len(),
            distinct(lanes@),
            note_lanes@.len() == notes@.len(),
            forall|a: int| 0 <= a < notes@.len() ==> (#[trigger] note_lanes@[a]) < lanes@.len()
                && lanes@[note_lanes@[a] as int] == note_lane(notes@[a]),
            automation_lanes@.len() == j,
            forall|b: int| 0 <= b < j ==> (#[trigger] automation_lanes@[b]) < lanes@.len()
                && lanes@[automation_lanes@[b] as int] == automation_lane(automation@[b]),
            forall|k: int| #![trigger lanes@[k]] 0 <= k < lanes@.len() ==>
                (exists|a: int| 0 <= a < notes@.len() && note_lane(#[trigger] notes@[a]) == lanes@[k])
                || (exists|b: int| 0 <= b < automation@.len() && automation_lane(#[trigger] automation@[b]) == lanes@[k]),
        decreases automation@.len() - j,
    {
        let p = automation[j];
        let lane = MidiLane { ch: p.ch, program: p.program, drum: None };
        let ghost before = lanes@;
        let at = midi_lane_index(&mut lanes, lane);
        proof {
            assert forall|k: int| #![trigger lanes@[k]] 0 <= k < lanes@.len() implies
                (exists|a: int| 0 <= a < notes@.len() && note_lane(#[trigger] notes@[a]) == lanes@[k])
                || (exists|b: int| 0 <= b < automation@.len() && automation_lane(#[trigger] automation@[b]) == lanes@[k]) by {
                if k < before.len() {
                    assert(lanes@[k] == before[k]);
                } else {
                    assert(automation_lane(automation@[j as int]) == lanes@[k]);
                }
            }
            assert forall|a: int| 0 <= a < notes@.len() implies (#[trigger] note_lanes@[a]) < lanes@.len()
                && lanes@[note_lanes@[a] as int] == note_lane(notes@[a]) by {
                assert(lanes@[note_lanes@[a] as int] == before[note_lanes@[a] as int]);
            }
            assert forall|b: int| 0 <= b < j implies (#[trigger] automation_lanes@[b]) < lanes@.len()
                && lanes@[automation_lanes@[b] as int] == automation_lane(automation@[b]) by {
                assert(lanes@[automation_lanes@[b] as int] == before[automation_lanes@[b] as int]);
            }
        }
        automation_lanes.push(at);
        j = j + 1;
    }
    let mut ids: Vec<TrackId> = Vec::new();
    let mut k: usize = 0;
    while k < lanes.len()
        invariant
            k <= lanes@.len(),
            ids@.len() == k,
            forall|a: int| 0 <= a < k ==> (#[trigger] ids@[a])@
                == midi_track_name(lanes@[a].ch, lanes@[a].program, lanes@[a].drum),
        decreases lanes@.len() - k,
    {
        let lane = lanes[k];
        ids.push(midi_track_id(lane.ch, lane.program, lane.drum));
        k = k + 1;
    }
    MidiLanes { lanes, ids, note_lanes, automation_lanes }
}

fn same_track_key(a: TrackKey, b: TrackKey) -> (r: bool)
    ensures
        r == (a == b),
{
    a.channel == b.channel && a.instrument == b.instrument && a.sample_slot == b.sample_slot
        && a.sample_offset == b.sample_offset
}

/// Where `key` stands among `keys`, if it does.
fn find_key(keys: &Vec<TrackKey>, key: TrackKey) -> (r: Option<usize>)
    ensures
        match r {
            Some(i) => i < keys@.len() && keys@[i as int] == key,
            None => !keys@.contains(key),
        },
{
    let mut k: usize = 0;
    while k < keys.len()
        invariant
            k <= keys@.len(),
            forall|j: int| 0 <= j < k ==> keys@[j] != key,
        decreases keys@.len() - k,
    {
        if same_track_key(keys[k], key) {
            return Some(k);
        }
        k = k + 1;
    }
    None
}

/// True when every note's channel and sample slot can be counted from 1.
pub open spec fn keys_countable(notes: Seq<TrackerNote>) -> bool {
    forall|i: int| 0 <= i < notes.len() ==> (#[trigger] notes[i]).key.channel < u64::MAX
        && notes[i].key.sample_slot < u64::MAX
}

/// Some note plays on `key`.
pub open spec fn key_played(notes: Seq<TrackerNote>, key: TrackKey) -> bool {
    exists|a: int| 0 <= a < notes.len() && (#[trigger] notes[a]).key == key
}

/// The sequence a tracker song becomes, apart from its sounds: where it
/// comes from, its grid of 24 steps per beat, its title with no composer,
/// and one track per key of its notes.
pub struct TrackerSequence {
    pub source_format: ImportedFormat,
    pub steps_per_beat: u32,
    pub metadata: SequenceMetadata,
    pub keys: Vec<TrackKey>,
    pub ids: Vec<TrackId>,
    pub note_lanes: Vec<usize>,
    pub automation_lanes: Vec<Option<usize>>,
}

/// Lays out the sequence of a tracker song: 24 steps per beat, the title
/// and no composer, one track for each key that a note plays on, each
/// once and with the id `tracker_track_id` gives it, the track of every
/// note, and the track of every automation point, where a note made one.
pub fn tracker_sequence(format: ImportedFormat, title: String, notes: &Vec<TrackerNote>,
    automation: &Vec<TrackerAutomation>) -> (r: TrackerSequence)
    requires
        keys_countable(notes@),
    ensures
        r.source_format == format,
        r.steps_per_beat == 24,
        r.metadata.title matches Some(t) && t@ == title@,
        r.metadata.composer is None,
        distinct(r.keys@),
        r.ids@.len() == r.keys@.len(),
        forall|k: int| 0 <= k < r.keys@.len() ==> (#[trigger] r.ids@[k])@ == tracker_track_name(format, r.keys@[k]),
        forall|k: int| 0 <= k < r.keys@.len() ==> key_played(notes@, #[trigger] r.keys@[k]),
        r.note_lanes@.len() == notes@.len(),
        forall|i: int| 0 <= i < notes@.len() ==> (#[trigger] r.note_lanes@[i]) < r.keys@.len()
            && r.keys@[r.note_lanes@[i] as int] == notes@[i].key,
        r.automation_lanes@.len() == automation@.len(),
        forall|j: int| 0 <= j < automation@.len() ==> match #[trigger] r.automation_lanes@[j] {
            Some(k) => k < r.keys@.len() && r.keys@[k as int] == automation@[j].key,
            None => !r.keys@.contains(automation@[j].key),
        },
{
    let mut keys: Vec<TrackKey> = Vec::new();
    let mut ids: Vec<TrackId> = Vec::new();
    let mut note_lanes: Vec<usize> = Vec::new();
    let mut i: usize = 0;
    while i < notes.len()
        invariant
            i <= notes@.len(),
            keys_countable(notes@),
            distinct(keys@),
            ids@.len() == keys@.len(),
            forall|k: int| 0 <= k < keys@.len() ==> (#[trigger] ids@[k])@ == tracker_track_name(format, keys@[k]),
            forall|k: int| 0 <= k < keys@.len() ==> key_played(notes@, #[trigger] keys@[k]),
            note_lanes@.len() == i,
            forall|a: int| 0 <= a < i ==> (#[trigger] note_lanes@[a]) < keys@.len()
                && keys@[note_lanes@[a] as int] == notes@[a].key,
        decreases notes@.len() - i,
    {
        let key = notes[i].key;
        match find_key(&keys, key) {
            Some(at) => {
                note_lanes.push(at);
            },
            None => {
                let ghost before = keys@;
                let ghost before_ids = ids@;
                assert(notes@[i as int].key.channel < u64::MAX);
                ids.push(tracker_track_id(format, key));
                keys.push(key);
                proof {
                    assert forall|k: int| 0 <= k < keys@.len() implies key_played(notes@, #[trigger] keys@[k]) by {
                        if k < before.len() {
                            assert(keys@[k] == before[k]);
                        } else {
                            assert(notes@[i as int].key == keys@[k]);
                        }
                    }
                    assert forall|k: int| 0 <= k < keys@.len() implies (#[trigger] ids@[k])@ == tracker_track_name(format, keys@[k]) by {
                        if k < before.len() {
                            assert(ids@[k] == before_ids[k]);
                        }
                    }
                    assert forall|a: int, b: int| 0 <= a < b < keys@.len() implies keys@[a] != keys@[b] by {
                        if b == before.len() {
                            assert(before.contains(before[a]));
                        }
                    }
                }
                note_lanes.push(keys.len() - 1);
            },
        }
        i = i + 1;
    }
    let mut automation_lanes: Vec<Option<usize>> = Vec::new();
    let mut j: usize = 0;
    while j < automation.len()
        invariant
            j <= automation@.len(),
            automation_lanes@.len() == j,
            forall|k: int| 0 <= k < keys@.len() ==> key_played(notes@, #[trigger] keys@[k]),
            forall|b: int| 0 <= b < j ==> match #[trigger] automation_lanes@[b] {
                Some(k) => k < keys@.len() && keys@[k as int] == automation@[b].key,
                None => !keys@.contains(automation@[b].key),
            },
        decreases automation@.len() - j,
    {
        automation_lanes.push(find_key(&keys, automation[j].key));
        j = j + 1;
    }
    let metadata = SequenceMetadata::new().title(title);
    TrackerSequence { source_format: format, steps_per_beat: 24, metadata, keys, ids, note_lanes, automation_lanes }
}

} // verus!
