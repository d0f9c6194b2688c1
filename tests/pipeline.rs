use imagika::archive::{read_entries, write_entries};
use imagika::compress::{collect_replacements, compress_entries, compress_pptx};
use imagika::dims::target_dimensions;
use imagika::entry::{rebuild_entries, Entry, ReplacementSet, Timestamp};
use imagika::errors::ImageikaError;
use imagika::media::is_media_name;
use imagika::transcode::{resize, Transcoded};

fn png(w: u32, h: u32) -> Vec<u8> {
    let mut pixels: Vec<u8> = Vec::with_capacity((w * h * 4) as usize);
    for y in 0..h {
        for x in 0..w {
            pixels.extend_from_slice(&[(x % 256) as u8, (y % 256) as u8, 128, 200]);
        }
    }
    let mut out = std::io::Cursor::new(Vec::new());
    image::write_buffer_with_format(&mut out, &pixels, w, h, image::ColorType::Rgba8, image::ImageFormat::Png)
        .unwrap();
    out.into_inner()
}

fn entry(name: &str, data: Vec<u8>, date: u16, time: u16, mode: u32) -> Entry {
    Entry { name: name.to_string(), data, modified: Timestamp { date, time }, mode }
}

fn entries_of(bytes: Vec<u8>) -> Vec<Entry> {
    read_entries(bytes).unwrap().1.into_iter().map(|e| e.unwrap()).collect()
}

fn stamp() -> (u16, u16) {
    let t = zip::DateTime::from_date_and_time(2021, 6, 15, 10, 30, 42).unwrap();
    (t.datepart(), t.timepart())
}

#[test]
fn target_of_wide_image() {
    assert_eq!(target_dimensions(2000, 1000), Some((1000, 500)));
    assert_eq!(target_dimensions(3000, 1001), Some((1000, 333)));
}

#[test]
fn target_of_tall_and_square_images() {
    assert_eq!(target_dimensions(1000, 2000), Some((500, 1000)));
    assert_eq!(target_dimensions(1500, 1500), Some((1000, 1000)));
    assert_eq!(target_dimensions(999, 1000), Some((999, 1000)));
}

#[test]
fn small_images_are_left_alone() {
    assert_eq!(target_dimensions(999, 999), None);
    assert_eq!(target_dimensions(10, 20), None);
}

#[test]
fn aspect_ratio_is_kept_up_to_rounding() {
    for &(w, h) in &[(2000u32, 1000u32), (4032, 3024), (1234, 5678), (1001, 7)] {
        let (tw, th) = target_dimensions(w, h).unwrap();
        let ratio_in = w as f64 / h as f64;
        let ratio_out = tw as f64 / th.max(1) as f64;
        if th > 10 && tw > 10 {
            assert!((ratio_in - ratio_out).abs() / ratio_in < 0.05);
        }
        assert!(tw <= 1000 && th <= 1000);
    }
}

#[test]
fn media_names() {
    assert!(is_media_name("ppt/media/image1.png"));
    assert!(is_media_name("PPT/Media/IMAGE2.JPG"));
    assert!(!is_media_name("ppt/media/"));
    assert!(!is_media_name("docs/readme.txt"));
    assert!(!is_media_name("xppt/media/image1.png"));
    assert!(!is_media_name("ppt/slides/slide1.xml"));
}

#[test]
fn replacement_set_stores_by_name() {
    let mut set = ReplacementSet::new();
    assert!(set.get(&"a".to_string()).is_none());
    set.insert("a".to_string(), vec![1, 2]);
    set.insert("b".to_string(), vec![3]);
    set.insert("a".to_string(), vec![4]);
    assert_eq!(set.get(&"a".to_string()), Some(&vec![4]));
    assert_eq!(set.get(&"b".to_string()), Some(&vec![3]));
    assert!(set.get(&"c".to_string()).is_none());
}

#[test]
fn rebuild_substitutes_only_replaced_names() {
    let src = vec![
        entry("ppt/media/a.png", vec![1, 2, 3], 1, 2, 0o644),
        entry("docs/readme.txt", vec![9, 9], 3, 4, 0o600),
        entry("ppt/media/b.png", vec![5], 5, 6, 0),
    ];
    let mut set = ReplacementSet::new();
    set.insert("ppt/media/a.png".to_string(), vec![7]);
    let out = rebuild_entries(&src, &set);
    assert_eq!(out.len(), 3);
    assert_eq!(out[0].name, "ppt/media/a.png");
    assert_eq!(out[0].data, vec![7]);
    assert_eq!(out[0].modified, Timestamp { date: 1, time: 2 });
    assert_eq!(out[0].mode, 0o644);
    assert_eq!(out[1].name, "docs/readme.txt");
    assert_eq!(out[1].data, vec![9, 9]);
    assert_eq!(out[1].mode, 0o600);
    assert_eq!(out[2].data, vec![5]);
    assert_eq!(out[2].modified, Timestamp { date: 5, time: 6 });
}

#[test]
fn resize_scales_wide_png() {
    let out = resize(&png(2000, 1000)).unwrap().unwrap();
    assert_eq!((out.width, out.height), (1000, 500));
    assert_eq!(image::guess_format(&out.bytes).unwrap(), image::ImageFormat::Png);
    let img = image::load_from_memory(&out.bytes).unwrap();
    assert_eq!((img.width(), img.height()), (1000, 500));
}

#[test]
fn resize_leaves_small_png() {
    assert!(resize(&png(40, 30)).unwrap().is_none());
}

#[test]
fn resize_rejects_corrupt_bytes() {
    let r = resize(&vec![0xff, 0xd8, 0xff, 0xe0, 1, 2, 3]);
    assert!(matches!(r, Err(ImageikaError::ImageError(_))));
    assert!(resize(&vec![]).is_err());
}

#[test]
fn resize_rejects_degenerate_scaled_size() {
    let r = resize(&png(3000, 1));
    assert!(matches!(r, Err(ImageikaError::ZeroDimension)));
}

#[test]
fn archive_round_trip_keeps_metadata() {
    let (d, t) = stamp();
    let src = vec![entry("a.txt", b"hello".to_vec(), d, t, 0o755), entry("b/c.bin", vec![0, 1, 2], d, t, 0o600)];
    let bytes = write_entries(&src).unwrap();
    let back = entries_of(bytes);
    assert_eq!(back.len(), 2);
    assert_eq!(back[0].name, "a.txt");
    assert_eq!(back[0].data, b"hello".to_vec());
    assert_eq!(back[0].modified, Timestamp { date: d, time: t });
    assert_eq!(back[0].mode & 0o777, 0o755);
    assert_eq!(back[1].name, "b/c.bin");
    assert_eq!(back[1].mode & 0o777, 0o600);
}

#[test]
fn scenario_image_and_text() {
    let (d, t) = stamp();
    let src = vec![
        entry("ppt/media/image1.png", png(2000, 1000), d, t, 0o644),
        entry("docs/readme.txt", b"read me".to_vec(), d, t, 0o644),
    ];
    let out = entries_of(compress_pptx(write_entries(&src).unwrap()).unwrap());
    assert_eq!(out.len(), 2);
    assert_eq!(out[0].name, "ppt/media/image1.png");
    assert_eq!(out[1].name, "docs/readme.txt");
    assert_eq!(out[1].data, b"read me".to_vec());
    assert_eq!(image::guess_format(&out[0].data).unwrap(), image::ImageFormat::Png);
    let img = image::load_from_memory(&out[0].data).unwrap();
    assert_eq!((img.width(), img.height()), (1000, 500));
    assert_eq!(out[0].modified, Timestamp { date: d, time: t });
    assert_eq!(out[1].modified, Timestamp { date: d, time: t });
    assert_eq!(out[0].mode & 0o777, 0o644);
}

#[test]
fn permissions_survive_the_pipeline() {
    let (d, t) = stamp();
    let src = vec![
        entry("ppt/media/image1.png", png(1200, 900), d, t, 0o600),
        entry("run.sh", b"#!/bin/sh".to_vec(), d, t, 0o755),
    ];
    let out = entries_of(compress_pptx(write_entries(&src).unwrap()).unwrap());
    assert_eq!(out[0].mode & 0o777, 0o600);
    assert_eq!(out[1].mode & 0o777, 0o755);
    assert_eq!(out[0].modified, Timestamp { date: d, time: t });
    let img = image::load_from_memory(&out[0].data).unwrap();
    assert_eq!((img.width(), img.height()), (1000, 750));
}

#[test]
fn missing_permissions_read_as_zero() {
    let s = imagika::archive::StoredEntry {
        name: "x".to_string(),
        data: vec![1],
        modified: Timestamp { date: 0, time: 0 },
        mode: None,
    };
    let e = imagika::archive::entry_of_stored(s);
    assert_eq!(e.mode, 0);
    assert_eq!(e.name, "x");
}

#[test]
fn scenario_corrupt_jpeg_falls_back() {
    let (d, t) = stamp();
    let bad = vec![0xff, 0xd8, 0xff, 0xe0, 0, 16, b'J', b'F', b'I', b'F', 0, 1, 2, 3];
    let src = vec![entry("ppt/media/image1.jpg", bad.clone(), d, t, 0o644)];
    let out = compress_entries(&src);
    assert_eq!(out.len(), 1);
    assert_eq!(out[0].data, bad);
    let back = entries_of(compress_pptx(write_entries(&src).unwrap()).unwrap());
    assert_eq!(back[0].data, bad);
}

#[test]
fn scenario_no_media_is_unchanged_and_stable() {
    let (d, t) = stamp();
    let src = vec![
        entry("[Content_Types].xml", b"<Types/>".to_vec(), d, t, 0o644),
        entry("ppt/slides/slide1.xml", b"<slide/>".to_vec(), d, t, 0o600),
        entry("docs/readme.txt", b"text".to_vec(), d, t, 0o644),
    ];
    let out = compress_entries(&src);
    assert_eq!(out.len(), 3);
    for (a, b) in src.iter().zip(out.iter()) {
        assert_eq!(a.name, b.name);
        assert_eq!(a.data, b.data);
        assert_eq!(a.modified, b.modified);
        assert_eq!(a.mode, b.mode);
    }
    let input = write_entries(&src).unwrap();
    let first = compress_pptx(input.clone()).unwrap();
    let second = compress_pptx(input).unwrap();
    assert_eq!(first, second);
}

#[test]
fn scenario_corrupt_container_fails() {
    assert!(compress_pptx(b"PK\x03\x04 not really a zip".to_vec()).is_err());
    assert!(compress_pptx(Vec::new()).is_err());
}

#[test]
fn small_media_entry_keeps_bytes() {
    let small = png(50, 60);
    let src = vec![entry("ppt/media/small.png", small.clone(), 0, 0, 0)];
    let out = compress_entries(&src);
    assert_eq!(out[0].data, small);
}

#[test]
fn replacements_come_from_successes_only() {
    let names = vec![
        "ppt/media/a.png".to_string(),
        "ppt/media/b.jpg".to_string(),
        "ppt/media/c.png".to_string(),
    ];
    let outcomes = vec![
        Ok(Some(Transcoded { width: 1000, height: 500, bytes: vec![1, 2] })),
        Err(ImageikaError::ZeroDimension),
        Ok(None),
    ];
    let set = collect_replacements(&names, &outcomes);
    assert_eq!(set.get(&names[0]), Some(&vec![1, 2]));
    assert!(set.get(&names[1]).is_none());
    assert!(set.get(&names[2]).is_none());
}

#[test]
fn unreadable_entry_is_carried_over() {
    let (d, t) = stamp();
    let src = vec![
        entry("a.txt", b"some text that is long enough".to_vec(), d, t, 0o644),
        entry("b.txt", b"other".to_vec(), d, t, 0o644),
    ];
    let mut bytes = write_entries(&src).unwrap();
    let cd = bytes.windows(4).position(|w| w == b"PK\x01\x02").unwrap();
    bytes[cd + 16] ^= 0xff;
    let (_, slots) = read_entries(bytes.clone()).unwrap();
    assert!(slots[0].is_none());
    assert!(slots[1].is_some());
    let out = compress_pptx(bytes).unwrap();
    let mut archive = zip::ZipArchive::new(std::io::Cursor::new(out.clone())).unwrap();
    assert_eq!(archive.len(), 2);
    assert_eq!(archive.by_index_raw(0).unwrap().name(), "a.txt");
    let (_, again) = read_entries(out).unwrap();
    assert!(again[0].is_none());
    assert_eq!(again[1].as_ref().unwrap().data, b"other".to_vec());
}

#[test]
fn errors_convert_into_their_variants() {
    let e = ImageikaError::from(fast_image_resize::ImageBufferError::InvalidBufferSize);
    assert!(matches!(e, ImageikaError::ImageBufferError(fast_image_resize::ImageBufferError::InvalidBufferSize)));
    let e = ImageikaError::from(fast_image_resize::MulDivImageError::UnsupportedPixelType);
    assert!(matches!(e, ImageikaError::MulDivImageError(_)));
    let bad = image::load_from_memory(&[1, 2, 3]).unwrap_err();
    assert!(matches!(ImageikaError::from(bad), ImageikaError::ImageError(_)));
}

#[test]
fn media_names_edge_cases() {
    assert!(!is_media_name("ppt/media/\nx"));
    assert!(is_media_name("ppt/media/x\n"));
    assert!(is_media_name("pPt/MeDiA/ä"));
    assert!(!is_media_name("ppt\\media\\a.png"));
}
