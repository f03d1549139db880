use agentview::actor;
use agentview::actor::{Layer, Sample, Span};
use agentview::canvas::{blend, Patch, Rgba};
use agentview::error::Error;
use agentview::sequence::{
    branch_chains_fit, build_frames, parse_sequences, Slot, BLANK, FLAG_BRANCH, FLAG_LAST,
    FLAG_SOUND,
};
use agentview::types::{Branch, Rgb, Transition};

/// Byte offset of the first slot's id: the two-byte region prefix plus the
/// sequence header's count and flags words.
const FIRST_SLOT: usize = 6;

/// A sequence region holding one sequence: a frame carrying a sound, a frame
/// carrying a branch back to the first, and a closing frame.
fn region() -> Vec<u8> {
    let mut out = vec![0x00, 0x01];
    for word in [
        5, 0, // slot count, sequence flags
        10, 100, FLAG_SOUND, // frame 10, 100ms, sound follows
        3, 0x0100, 0, // the sound record: audio index 3
        11, 200, FLAG_BRANCH, // frame 11, 200ms, branch follows
        0, 0x4000, 0, // branch back to slot 0
        12, 50, FLAG_LAST, // frame 12, 50ms, end of sequence
    ] {
        out.extend_from_slice(&word.to_le_bytes());
    }
    out
}

#[test]
fn splits_sequences_on_their_slot_count() {
    let data = region();
    let sequences = parse_sequences(&data, 0..data.len(), 1);
    assert_eq!(sequences.len(), 1);
    assert_eq!(sequences[0].len(), 5);
    assert_eq!(sequences[0][0].id, 10);
}

#[test]
fn resolves_sounds_branches_and_durations() {
    let data = region();
    let sequences = parse_sequences(&data, 0..data.len(), 1);
    let frames = build_frames(&sequences[0], 10, 5);

    // Sound and branch records are consumed, not mistaken for frames.
    assert_eq!(frames.len(), 3);
    assert_eq!(frames[0].images[0].image_index, 0);
    assert_eq!(frames[0].audio_index, Some(3));
    assert_eq!(frames[0].duration, 10); // 100ms in hundredths
    assert_eq!(frames[1].images[0].image_index, 1);
    assert_eq!(frames[2].images[0].image_index, 2);

    // The only branch in a chain catches everything, and its target slot
    // resolves to the frame that slot became.
    assert_eq!(frames[1].branches.len(), 1);
    assert_eq!(frames[1].branches[0].frame_index, 0);
    assert_eq!(frames[1].branches[0].probability, 100);
}

#[test]
fn treats_the_blank_id_as_an_empty_frame() {
    let mut data = region();
    data[FIRST_SLOT..FIRST_SLOT + 2].copy_from_slice(&BLANK.to_le_bytes());
    let sequences = parse_sequences(&data, 0..data.len(), 1);
    let frames = build_frames(&sequences[0], 10, 5);
    assert!(frames[0].images.is_empty());
    assert_eq!(frames[0].audio_index, Some(3));
}

fn slot(id: u16, value: u16, flags: u16) -> Slot {
    Slot { id, value, flags }
}

#[test]
fn a_cascade_becomes_plain_percentages() {
    // Half, then half of what is left, then the rest.
    let slots = vec![
        slot(0, 100, 0),
        slot(0, 100, FLAG_BRANCH),
        slot(0, 0x4000, FLAG_BRANCH),
        slot(1, 0x4000, FLAG_BRANCH),
        slot(5, 0, 0),
        slot(1, 100, FLAG_LAST),
    ];
    assert!(branch_chains_fit(&slots));
    let frames = build_frames(&slots, 0, 10);
    assert_eq!(frames.len(), 3);
    assert_eq!(
        frames[1].branches,
        vec![
            Branch { frame_index: 0, probability: 50 },
            Branch { frame_index: 1, probability: 25 },
            Branch { frame_index: 2, probability: 25 },
        ]
    );
}

#[test]
fn branches_to_no_frame_are_dropped() {
    // Slot 2 is a branch record, and slot 9 is not there at all.
    let slots = vec![
        slot(0, 100, FLAG_BRANCH),
        slot(2, 0x4000, FLAG_BRANCH),
        slot(9, 0x4000, FLAG_BRANCH),
        slot(0, 0, 0),
    ];
    let frames = build_frames(&slots, 0, 10);
    assert_eq!(frames.len(), 1);
    assert_eq!(frames[0].branches, vec![Branch { frame_index: 0, probability: 25 }]);
}

#[test]
fn a_sound_follows_the_branch_chain() {
    let slots = vec![
        slot(0, 100, FLAG_BRANCH | FLAG_SOUND),
        slot(0, 0, 0),
        slot(7, 0, 0),
        slot(1, 100, FLAG_LAST),
    ];
    let frames = build_frames(&slots, 0, 10);
    assert_eq!(frames.len(), 2);
    assert_eq!(frames[0].audio_index, Some(7));
    assert_eq!(frames[0].branches, vec![Branch { frame_index: 0, probability: 100 }]);
}

#[test]
fn chains_that_hand_out_too_much_are_told_apart() {
    let greedy = vec![
        slot(0, 100, FLAG_BRANCH),
        slot(0, 0xFFFF, FLAG_BRANCH),
        slot(0, 0, 0),
    ];
    assert!(!branch_chains_fit(&greedy));
}

#[test]
fn sequences_stop_where_they_would_leave_the_region() {
    let data = region();
    assert_eq!(parse_sequences(&data, 0..data.len() - 1, 1).len(), 0);
    assert_eq!(parse_sequences(&data, 0..data.len(), 9).len(), 1);
    assert_eq!(parse_sequences(&[], 0..0, 9).len(), 0);
}

fn put16(out: &mut Vec<u8>, v: u16) {
    out.extend_from_slice(&v.to_le_bytes());
}

fn put32(out: &mut Vec<u8>, v: u32) {
    out.extend_from_slice(&v.to_le_bytes());
}

/// An Actor file with one metafile of `metafile` bytes, one frame composition
/// that places it, one sound and one action with two variants.
fn actor_file(version: u16) -> Vec<u8> {
    let metafile = vec![0u8; 20];
    let mut frame = Vec::new();
    put16(&mut frame, 0);
    put16(&mut frame, 2);
    for v in [0u16, 0, 0, 2880, 2160] {
        put16(&mut frame, v);
    }
    for v in [BLANK, 0, 0, 1, 1] {
        put16(&mut frame, v);
    }
    let sound = vec![1u8, 2, 3];

    let mut sequences = vec![0u8, 1];
    for v in [1u16, 0, 1, 120, FLAG_LAST] {
        put16(&mut sequences, v);
    }
    for v in [0u16, 0] {
        put16(&mut sequences, v);
    }
    let mut actions = Vec::new();
    put32(&mut actions, 1);
    for v in [7u16, 2, 1] {
        put16(&mut actions, v);
    }

    let name = b"Rover\0";
    let fixed = 70u32;
    let p0 = fixed;
    let blobs = (metafile.len() + frame.len()) as u32;
    let p1 = p0 + blobs;
    let p2 = p1 + 12;
    let p3 = p2 + sound.len() as u32;
    let p4 = p3 + 8;
    let p5 = p4 + sequences.len() as u32;
    let p6 = p5 + actions.len() as u32;

    let mut out = Vec::new();
    out.extend_from_slice(b"LP");
    put16(&mut out, version);
    put32(&mut out, 0);
    put16(&mut out, name.len() as u16);
    out.extend_from_slice(&[0; 8]);
    out.extend_from_slice(name);
    let mut head = vec![0u8; 70];
    head[4..6].copy_from_slice(&1u16.to_le_bytes());
    head[12..14].copy_from_slice(&192u16.to_le_bytes());
    head[14..16].copy_from_slice(&144u16.to_le_bytes());
    for (i, p) in [p0, p1, p2, p3, p4, p5, p6, p6].iter().enumerate() {
        head[38 + 4 * i..42 + 4 * i].copy_from_slice(&p.to_le_bytes());
    }
    out.extend_from_slice(&head);
    out.extend_from_slice(&metafile);
    out.extend_from_slice(&frame);
    put32(&mut out, 0);
    put32(&mut out, metafile.len() as u32);
    put32(&mut out, blobs);
    out.extend_from_slice(&sound);
    put32(&mut out, 0);
    put32(&mut out, sound.len() as u32);
    out.extend_from_slice(&sequences);
    out.extend_from_slice(&actions);
    out
}

#[test]
fn reads_an_actor_file() {
    let data = actor_file(1);
    assert!(actor::is_sound(&data));
    let c = actor::parse(data).unwrap();
    assert_eq!(c.info.major_version, 1);
    assert_eq!((c.info.width, c.info.height), (576, 432));
    assert_eq!(c.info.palette.len(), 256);
    assert_eq!(c.info.palette[252], Rgb { r: 255, g: 255, b: 255 });
    assert_eq!(c.info.palette[2], Rgb { r: 0, g: 0, b: 51 });
    assert_eq!(c.info.localized[0].language_id, 0x0409);
    assert_eq!(c.info.localized[0].name, "Rover");
    assert_eq!(c.info.localized[0].description, "Microsoft Bob Actor");
    // The second variant has a sequence without slots, so no animation.
    assert_eq!(c.animations.len(), 1);
    assert_eq!(c.animations[0].name, "Action 7 (1)");
    assert!(matches!(c.animations[0].transition, Transition::Nothing));
    assert_eq!(c.animations[0].frames[0].duration, 12);
    assert_eq!(c.animations[0].frames[0].images[0].image_index, 0);
    assert_eq!(c.audio, vec![vec![1u8, 2, 3]]);
    assert!(c.is_actor());
    assert_eq!(c.image_count(), 1);
    assert_eq!(c.audio_count(), 1);
    assert_eq!(c.audio(0), Some(&vec![1u8, 2, 3]));
    assert_eq!(c.audio(1), None);
    assert_eq!(
        actor::parse(actor_file(2)).unwrap().info.localized[0].description,
        "Microsoft Office 97 Actor"
    );
}

fn complaint(data: Vec<u8>) -> String {
    assert!(actor::is_sound(&data));
    match actor::parse(data) {
        Ok(_) => panic!("read"),
        Err(e) => e.message().to_string(),
    }
}

#[test]
fn broken_actor_files_are_named() {
    assert_eq!(complaint(b"XX".to_vec()), "not a Microsoft Actor file");
    assert!(matches!(actor::parse(b"XX".to_vec()), Err(Error::Unsupported(_))));
    assert_eq!(complaint(b"LP".to_vec()), "truncated Actor data");
    assert_eq!(complaint(actor_file(3)), "unknown Microsoft Actor version 3");
    let good = actor_file(1);
    assert_eq!(complaint(good[..20].to_vec()), "truncated Actor name");
    let end = 24;
    assert_eq!(complaint(good[..end + 10].to_vec()), "truncated Actor data");

    let mut flat = good.clone();
    flat[end + 12] = 0;
    assert_eq!(complaint(flat), "Actor character has an empty canvas");

    let mut far = good.clone();
    far[end + 38 + 28 + 3] = 0x7F;
    assert_eq!(complaint(far), "Actor section offset past end of file");

    let mut odd = good.clone();
    odd[end + 38 + 8] += 1;
    assert_eq!(complaint(odd), "invalid Actor offset table");

    let mut late = good.clone();
    late[end + 4] = 9;
    assert_eq!(complaint(late), "Actor first-frame index is invalid");

    // The composition claims more layers than it has room for.
    let mut crowded = good.clone();
    crowded[end + 70 + 20 + 2] = 3;
    assert_eq!(complaint(crowded), "Actor frame 1: truncated Actor frame composition");

    // No actions, no animations.
    let mut idle = good.clone();
    let at = good.len() - 10;
    idle[at] = 0;
    assert_eq!(complaint(idle), "Actor file contains no playable animations");

    let mut many = good;
    many[at] = 9;
    assert_eq!(complaint(many), "truncated Actor data");
}

#[test]
fn offsets_and_layers_are_checked() {
    assert_eq!(actor::parse_offsets(&[1, 0, 0, 0, 2, 0, 0, 0], 0, 8).unwrap(), vec![1, 2]);
    assert_eq!(
        actor::parse_offsets(&[0; 8], 4, 0).unwrap_err().message(),
        "invalid Actor offset table"
    );
    assert_eq!(
        actor::parse_offsets(&[0; 6], 0, 8).unwrap_err().message(),
        "truncated Actor data"
    );
    assert_eq!(actor::u16_at(&[1, 2, 3], 1).unwrap(), 0x0302);
    assert_eq!(actor::u32_at(&[1, 2, 3], 0).unwrap_err().message(), "truncated Actor data");
    let short = actor::parse_layers(&[0; 8], Span { start: 0, end: 3 });
    assert_eq!(short.unwrap_err().message(), "short Actor frame composition");
    let mut data = vec![0u8, 0, 1, 0];
    for v in [4u16, 0xFFFF, 2, 3, 4] {
        put16(&mut data, v);
    }
    let layers = actor::parse_layers(&data, Span { start: 0, end: 14 }).unwrap();
    assert_eq!(layers, vec![Layer { asset: 4, left: -1, top: 2, right: 3, bottom: 4 }]);
}

fn solid(c: Rgba, x0: usize, y0: usize, x1: usize, y1: usize) -> Sample {
    let n = (x1 - x0) * (y1 - y0);
    Sample::Patch(Patch { x0, y0, x1, y1, colors: vec![c; n] })
}

#[test]
fn layers_composite_over_each_other() {
    let layer = |asset| Layer { asset, left: 0, top: 0, right: 1, bottom: 1 };
    let source = actor::ActorSource {
        data: Vec::new(),
        assets: Vec::new(),
        frames: vec![vec![layer(0), layer(1), layer(BLANK)]],
        width: 2,
        height: 1,
    };
    let red = Rgba { r: 255, g: 0, b: 0, a: 255 };
    let half = Rgba { r: 0, g: 0, b: 255, a: 128 };
    let samples =
        vec![solid(red, 0, 0, 1, 1), solid(half, 0, 0, 2, 1), solid(red, 0, 0, 2, 1)];
    let rgba = source.render(0, &samples).unwrap();
    // Half blue over opaque red, and half blue over nothing; the blank layer
    // paints nothing whatever it shows.
    assert_eq!(rgba, vec![127, 0, 128, 255, 0, 0, 255, 128]);
    assert_eq!(source.frame_count(), 1);
    assert_eq!(source.layers(0).unwrap().len(), 3);
    assert_eq!(
        source.render(1, &Vec::new()).unwrap_err().message(),
        "Actor frame 1 is out of range"
    );
    assert_eq!(source.layers(4).unwrap_err().message(), "Actor frame 4 is out of range");

    let failing = vec![
        Sample::Nothing,
        Sample::Failed(Error::Parse("first".to_string())),
        Sample::Failed(Error::Parse("blank".to_string())),
    ];
    assert_eq!(source.render(0, &failing).unwrap_err().message(), "first");
}

#[test]
fn painting_extremes_hold() {
    let dst = Rgba { r: 10, g: 20, b: 30, a: 40 };
    let solid = Rgba { r: 1, g: 2, b: 3, a: 255 };
    let nothing = Rgba { r: 9, g: 9, b: 9, a: 0 };
    assert_eq!(blend(dst, solid), solid);
    assert_eq!(blend(dst, nothing), dst);
    assert_eq!(blend(nothing, dst), dst);
    // 128 + 40 * 127 / 255 = 147, and each channel in proportion.
    let over = blend(dst, Rgba { r: 100, g: 0, b: 0, a: 128 });
    assert_eq!(over, Rgba { r: 88, g: 2, b: 4, a: 147 });
}

#[test]
fn assets_are_drawn_at_their_largest() {
    let layer = |asset| Layer { asset, left: 0, top: 0, right: 1, bottom: 1 };
    let source = actor::ActorSource {
        data: vec![0; 30],
        assets: vec![Span { start: 0, end: 30 }, Span { start: 5, end: 90 }],
        frames: vec![vec![layer(0), layer(1)], vec![layer(0)]],
        width: 2,
        height: 1,
    };
    let drawn = vec![vec![(5, 9), (70, 70)], vec![(6, 2)]];
    assert_eq!(source.asset_size(0, &drawn), (6, 9));
    assert_eq!(source.asset_size(1, &drawn), (70, 70));
    assert_eq!(source.asset_size(2, &drawn), (1, 1));
    assert!(source.is_asset_ready(0, (4, 4)));
    assert!(!source.is_asset_ready(1, (4, 4)));
    assert!(source.is_asset_ready(2, (4, 4)));
    assert!(source.asset(0, (4, 4)).unwrap().ops.is_empty());
    assert_eq!(
        source.asset(2, (4, 4)).unwrap_err().message(),
        "Actor asset 2 is out of range"
    );
}
