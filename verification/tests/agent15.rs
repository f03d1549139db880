use std::io::{Cursor, Write};

use agentview::agent15::{
    flip, parse, parse_aaf, parse_acf, stream_contents, stream_path, unpack_aaf, unpack_acf,
    AnimationRef, ACF_SIGNATURE, INNER_SIGNATURE,
};
use agentview::character::Artwork;
use agentview::error::Error;
use agentview::types::{stride_for, Rgb};

fn decompress(data: &[u8], size: usize) -> Result<Vec<u8>, Error> {
    if data.len() == size {
        Ok(data.iter().map(|b| b ^ 0xFF).collect())
    } else {
        Err(Error::Parse("bad compressed size".to_string()))
    }
}

/// Strings with a length byte in front.
fn read_string(data: &[u8], at: usize) -> Result<(String, usize), Error> {
    let short = || Error::Parse("no string".to_string());
    let n = *data.get(at).ok_or_else(short)? as usize;
    let bytes = data.get(at + 1..at + 1 + n).ok_or_else(short)?;
    Ok((String::from_utf8_lossy(bytes).into_owned(), at + 1 + n))
}

fn put_string(out: &mut Vec<u8>, s: &str) {
    out.push(s.len() as u8);
    out.extend_from_slice(s.as_bytes());
}

/// A character description naming these animations and streams.
fn description(refs: &[(&str, &str)], width: u16, height: u16) -> Vec<u8> {
    let mut d = Vec::new();
    d.extend_from_slice(&INNER_SIGNATURE.to_le_bytes());
    d.extend_from_slice(&(refs.len() as u16).to_le_bytes());
    for (name, file) in refs {
        put_string(&mut d, name);
        put_string(&mut d, file);
        put_string(&mut d, "");
        d.extend_from_slice(&7u32.to_le_bytes());
    }
    d.extend_from_slice(&[5; 16]);
    put_string(&mut d, "Genie");
    put_string(&mut d, "A genie");
    put_string(&mut d, "");
    d.extend_from_slice(&width.to_le_bytes());
    d.extend_from_slice(&height.to_le_bytes());
    d.push(9);
    d.extend_from_slice(&0x1234u32.to_le_bytes());
    let mut palette = vec![0u8; 1024];
    palette[4..7].copy_from_slice(&[1, 2, 3]);
    d.extend_from_slice(&palette);
    d.extend_from_slice(&[0; 4]);
    d
}

fn pack_acf(d: &[u8]) -> Vec<u8> {
    let mut out = Vec::new();
    out.extend_from_slice(&ACF_SIGNATURE.to_le_bytes());
    out.extend_from_slice(&(d.len() as u32).to_le_bytes());
    out.extend_from_slice(&(d.len() as u32).to_le_bytes());
    out.extend(d.iter().map(|b| b ^ 0xFF));
    out
}

fn pack_aaf(d: &[u8], size: u32) -> Vec<u8> {
    let mut out = Vec::new();
    out.extend_from_slice(&INNER_SIGNATURE.to_le_bytes());
    out.extend_from_slice(&99u32.to_le_bytes());
    out.push(0);
    out.extend_from_slice(&size.to_le_bytes());
    out.extend_from_slice(&(d.len() as u32).to_le_bytes());
    out.extend_from_slice(d);
    out
}

fn wave() -> Vec<u8> {
    let mut w = b"RIFF\0\0\0\0WAVE".to_vec();
    w.extend_from_slice(&[1, 2]);
    w
}

/// An animation with a sound and images of two rows.
fn animation(images: &[[u8; 8]], wave: &[u8]) -> Vec<u8> {
    let mut d = vec![1, 0];
    d.extend_from_slice(&(wave.len() as u32).to_le_bytes());
    d.extend_from_slice(wave);
    d.extend_from_slice(&(images.len() as u16).to_le_bytes());
    d.extend_from_slice(&8u32.to_le_bytes());
    d.push(0);
    for i in images {
        d.extend_from_slice(i);
    }
    d
}

fn compound(streams: &[(&str, Vec<u8>)]) -> Vec<u8> {
    let mut file = cfb::CompoundFile::create(Cursor::new(Vec::new())).unwrap();
    for (name, data) in streams {
        let mut s = file.create_stream(name).unwrap();
        s.write_all(data).unwrap();
        s.flush().unwrap();
    }
    file.flush().unwrap();
    file.into_inner().into_inner()
}

#[test]
fn reads_an_agent_file() {
    let refs = [("Wave", "wave.aaf"), ("Lost", "lost.aaf"), ("Broken", "broken.aaf")];
    let data = compound(&[
        ("/char.acf", pack_acf(&description(&refs, 3, 2))),
        (
            "/wave.aaf",
            {
                let d = animation(&[[1, 2, 3, 4, 5, 6, 7, 8], [8; 8]], &wave());
                pack_aaf(&d, d.len() as u32)
            },
        ),
        ("/broken.aaf", vec![1, 2, 3]),
    ]);
    let c = parse(data, &decompress, &read_string).unwrap();
    assert_eq!((c.info.major_version, c.info.minor_version), (1, 5));
    assert_eq!(c.info.guid, [5; 16]);
    assert_eq!((c.info.width, c.info.height), (3, 2));
    assert_eq!(c.info.transparent_index, 9);
    assert_eq!(c.info.flags, 0x1234);
    assert_eq!(c.info.palette.len(), 256);
    assert_eq!(c.info.palette[1], Rgb { r: 3, g: 2, b: 1 });
    assert_eq!(c.info.name_for(None), Some("Genie"));
    assert_eq!(c.info.description_for(Some(9)), Some("A genie"));
    let names: Vec<&str> = c.animations.iter().map(|a| a.name.as_str()).collect();
    assert_eq!(names, vec!["Wave", "Lost", "Broken"]);
    assert_eq!(c.animations[0].frames.len(), 2);
    assert!(c.animations[1].frames.is_empty());
    assert!(c.animations[2].frames.is_empty());
    assert_eq!(c.animations[0].frames[0].audio_index, Some(0));
    assert_eq!(c.animations[0].frames[1].audio_index, None);
    assert_eq!(c.animations[0].frames[1].images[0].image_index, 1);
    assert_eq!(c.animations[0].frames[0].duration, 10);
    assert_eq!(c.audio, vec![wave()]);
    assert!(!c.is_actor());
    match &c.artwork {
        Artwork::Indexed(images) => {
            // Rows come in top first and are kept bottom first.
            assert_eq!(images[0].pixels, vec![5, 6, 7, 8, 1, 2, 3, 4]);
            assert_eq!(c.image_count(), 2);
        }
        Artwork::Actor(_) => panic!("an actor"),
    }
}

fn complaint(data: Vec<u8>) -> String {
    match parse(data, &decompress, &read_string) {
        Ok(_) => panic!("read"),
        Err(e) => e.message().to_string(),
    }
}

#[test]
fn broken_agent_files_are_named() {
    assert_eq!(
        complaint(vec![1, 2, 3]),
        "invalid Agent 1.5 compound file: Invalid CFB file (3 bytes is too small)"
    );
    assert_eq!(complaint(compound(&[])), "Agent 1.5 file has no char.acf stream");
    assert_eq!(
        complaint(compound(&[("/char.acf", vec![0; 12])])),
        "invalid Agent 1.5 ACF signature"
    );
}

fn acf_complaint(packed: &[u8]) -> String {
    match parse_acf(packed, &decompress, &read_string) {
        Ok(_) => panic!("read"),
        Err(e) => e.message().to_string(),
    }
}

#[test]
fn broken_descriptions_are_named() {
    assert_eq!(acf_complaint(&[1, 2]), "unexpected end of data");
    assert_eq!(acf_complaint(&pack_acf(&[0; 6])), "invalid decompressed Agent 1.5 ACF");
    let d = description(&[("A", "b")], 3, 2);
    assert_eq!(acf_complaint(&pack_acf(&d[..40])), "no string");
    // Everything is there but the palette.
    let mut bare = d.clone();
    bare.truncate(d.len() - 1028);
    assert_eq!(acf_complaint(&pack_acf(&bare)), "Agent 1.5 ACF has no complete palette");
    let mut bad = pack_acf(&d);
    bad[4] ^= 1;
    assert_eq!(acf_complaint(&bad), "bad compressed size");
    assert_eq!(unpack_acf(&pack_acf(&[7, 8]), &decompress).unwrap(), vec![7, 8]);
    let (refs, info) = parse_acf(&pack_acf(&d), &decompress, &read_string).unwrap();
    assert_eq!(refs[0].file, "b");
    assert_eq!(refs[0].checksum, 7);
    assert_eq!(info.localized[0].name, "Genie");
}

#[test]
fn broken_animations_are_named_and_keep_what_was_read() {
    let d = description(&[("A", "b")], 3, 2);
    let (_, info) = parse_acf(&pack_acf(&d), &decompress, &read_string).unwrap();
    let r = AnimationRef { name: "A".to_string(), file: "b".to_string(), checksum: 0 };
    let mut images = Vec::new();
    let mut sounds = Vec::new();
    let mut read = |bytes: &[u8]| {
        match parse_aaf(bytes, &r, &info, &mut images, &mut sounds, &decompress) {
            Ok(_) => "read".to_string(),
            Err(e) => e.message().to_string(),
        }
    };
    assert_eq!(read(&[0; 4]), "invalid Agent 1.5 AAF signature");
    assert_eq!(read(&pack_aaf(&[1, 2], 3)), "Agent 1.5 AAF size mismatch");
    let hiss = animation(&[], b"RIFFxxxxJUNK");
    assert_eq!(read(&pack_aaf(&hiss, hiss.len() as u32)), "b has an invalid WAVE block");
    let mut odd = animation(&[], &wave());
    let at = odd.len() - 5;
    odd[at] = 9;
    assert_eq!(read(&pack_aaf(&odd, odd.len() as u32)), "b frame size 9 != 8");
    // Two images promised, one and a half there: the whole one stays.
    let mut cut = animation(&[[1; 8], [2; 8]], &wave());
    cut.truncate(cut.len() - 4);
    assert_eq!(read(&pack_aaf(&cut, cut.len() as u32)), "unexpected end of data");
    assert_eq!(images.len(), 1);
    assert_eq!(sounds.len(), 2);
}

#[test]
fn packed_animations_are_unpacked() {
    let mut packed = pack_aaf(&[0xF0, 0x0F], 2);
    packed[8] = 1;
    assert_eq!(unpack_aaf(&packed, &decompress).unwrap(), vec![0x0F, 0xF0]);
    assert_eq!(unpack_aaf(&pack_aaf(&[1, 2], 2), &decompress).unwrap(), vec![1, 2]);
}

#[test]
fn flipping_twice_gives_the_image_back() {
    let pixels = vec![1, 2, 3, 4, 5, 6];
    assert_eq!(flip(&pixels, 2, 3), vec![5, 6, 3, 4, 1, 2]);
    assert_eq!(flip(&flip(&pixels, 2, 3), 2, 3), pixels);
    assert_eq!(stride_for(1), 4);
    assert_eq!(stride_for(4), 4);
    assert_eq!(stride_for(65535), 65536);
}

#[test]
fn only_a_stream_read_to_its_end_counts() {
    assert_eq!(stream_contents(Some(Ok(2)), vec![7, 8]), Some(vec![7, 8]));
    assert_eq!(stream_contents(Some(Ok(0)), Vec::new()), Some(Vec::new()));
    assert_eq!(stream_contents(Some(Err("cut short".to_string())), vec![7]), None);
    assert_eq!(stream_contents(None, Vec::new()), None);
}

#[test]
fn streams_are_found_under_any_name() {
    assert_eq!(stream_path("wave.aaf"), "/wave.aaf");
    assert_eq!(stream_path("über.aaf"), "/über.aaf");
    assert_eq!(stream_path(""), "/");

    let refs = [
        ("Lost", "weg/über.aaf"),
        ("Over", "über.aaf"),
        ("Gone", "ünter.aaf"),
        ("Dotted", ".wave"),
        ("Inside", "more/wave.aaf"),
        ("Plain", "./.wave"),
        ("Nobody", ""),
    ];
    let frames = |n: usize| {
        let d = animation(&vec![[3; 8]; n], &wave());
        pack_aaf(&d, d.len() as u32)
    };
    let streams = [
        ("/char.acf", pack_acf(&description(&refs, 3, 2))),
        ("/über.aaf", frames(1)),
        ("/.wave", frames(2)),
        ("/more/wave.aaf", frames(3)),
    ];
    let mut file = cfb::CompoundFile::create(Cursor::new(Vec::new())).unwrap();
    file.create_storage("/more").unwrap();
    for (name, data) in &streams {
        let mut s = file.create_stream(name).unwrap();
        s.write_all(data).unwrap();
        s.flush().unwrap();
    }
    file.flush().unwrap();
    let data = file.into_inner().into_inner();

    let c = parse(data, &decompress, &read_string).unwrap();
    let read: Vec<(&str, usize)> =
        c.animations.iter().map(|a| (a.name.as_str(), a.frames.len())).collect();
    assert_eq!(
        read,
        vec![
            ("Lost", 0),
            ("Over", 1),
            ("Gone", 0),
            ("Dotted", 2),
            ("Inside", 3),
            ("Plain", 2),
            ("Nobody", 0),
        ]
    );
}
