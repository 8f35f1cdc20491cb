use lings::clock::now;
use lings::metadata::{audio_record, audio_record_named, overlay_document, read_ucs, read_ucs_named};
use lings::riff::{is_wave_data, riff_ixml, write_ixml};
use lings::tags::read_generic;
use lings::ucs::UcsMeta;
use std::path::Path;

fn sample() -> Vec<u8> {
    let mut wav=b"RIFF\x24\0\0\0WAVEfmt \x10\0\0\0\x01\0\x01\0\x40\x1f\0\0\x80\x3e\0\0\x02\0\x10\0data\0\0\0\0".to_vec();
    let size = (wav.len() - 8) as u32;
    wav[4..8].copy_from_slice(&size.to_le_bytes());
    wav
}

fn chunk(tag: &[u8; 4], payload: &[u8]) -> Vec<u8> {
    let mut c = tag.to_vec();
    c.extend_from_slice(&(payload.len() as u32).to_le_bytes());
    c.extend_from_slice(payload);
    if payload.len() % 2 == 1 {
        c.push(0);
    }
    c
}

fn wave(chunks: &[Vec<u8>]) -> Vec<u8> {
    let mut w = b"RIFF\0\0\0\0WAVE".to_vec();
    for c in chunks {
        w.extend_from_slice(c);
    }
    let size = (w.len() - 8) as u32;
    w[4..8].copy_from_slice(&size.to_le_bytes());
    w
}

fn record() -> UcsMeta {
    UcsMeta {
        cat_id: "AIRBlow".into(),
        category: "AIR".into(),
        sub_category: "BLOW".into(),
        fx_name: "Compressed Air Burst".into(),
        user_data: "中文数据 & safe".into(),
        ..Default::default()
    }
}

#[test]
fn writes_and_reads_ucs_ixml() {
    let path = format!("lings_ucs_{}.wav", now());
    let path = Path::new(&path);
    let wav = sample();
    let u = UcsMeta {
        cat_id: "AIRBlow".into(),
        category: "AIR".into(),
        sub_category: "BLOW".into(),
        fx_name: "Compressed Air Burst".into(),
        user_data: "中文数据 & safe".into(),
        ..Default::default()
    };
    let bytes = write_ixml(&wav, &u).unwrap().unwrap();
    let got = read_ucs(path, Some(&bytes));
    assert_eq!(got.cat_id, "AIRBlow");
    assert_eq!(got.fx_name, "Compressed Air Burst");
    assert_eq!(got.user_data, "中文数据 & safe");
    assert_eq!(got.category, "AIR");
    assert_eq!(got.sub_category, "BLOW");
    assert_eq!(got.creator_id, "");
}

#[test]
fn the_name_counts_where_the_document_is_silent() {
    let u = UcsMeta { category: "  AIR\n".into(), cat_id: " ".into(), ..Default::default() };
    let bytes = write_ixml(&sample(), &u).unwrap().unwrap();
    let got = read_ucs_named(Some("WINDGust_x-Strong.wav"), Some(&bytes));
    assert_eq!(got.cat_id, "WINDGust");
    assert_eq!(got.fx_name, "Strong");
    assert_eq!(got.category, "AIR");
    let got = read_ucs_named(Some("WINDGust_x-Strong.wav"), None);
    assert_eq!(got.cat_id, "WINDGust");
    assert_eq!(got.category, "");
}

#[test]
fn other_chunks_stay_and_the_size_is_set() {
    let odd = chunk(b"note", b"odd");
    let old = chunk(b"iXML", b"<BWFXML><ASWG></ASWG></BWFXML>");
    let data = chunk(b"data", &[1, 2, 3, 4]);
    let wav = wave(&[odd.clone(), old, data.clone()]);
    let out = write_ixml(&wav, &record()).unwrap().unwrap();
    assert!(is_wave_data(&out));
    assert_eq!(&out[4..8], &((out.len() - 8) as u32).to_le_bytes());
    assert_eq!(&out[8..12 + odd.len()], &wav[8..12 + odd.len()]);
    assert_eq!(&out[out.len() - data.len()..], &data[..]);
    let text = riff_ixml(&out).unwrap();
    assert_eq!(out, wave(&[odd, chunk(b"iXML", text.as_bytes()), data]));
}

#[test]
fn a_chunk_is_added_at_the_end() {
    let wav = sample();
    let out = write_ixml(&wav, &record()).unwrap().unwrap();
    assert_eq!(&out[8..wav.len()], &wav[8..]);
    assert_eq!(&out[wav.len()..wav.len() + 4], b"iXML");
}

#[test]
fn the_last_write_wins() {
    let first = UcsMeta { user_data: "first".into(), ..Default::default() };
    for wav in [sample(), wave(&[chunk(b"iXML", b"<BWFXML><A>b</A></BWFXML>\0\0")])] {
        let once = write_ixml(&wav, &record()).unwrap().unwrap();
        let before = write_ixml(&wav, &first).unwrap().unwrap();
        let twice = write_ixml(&before, &record()).unwrap().unwrap();
        assert_eq!(once, twice);
    }
}

#[test]
fn other_files_are_left_alone() {
    assert_eq!(write_ixml(b"not-a-wave", &record()), Ok(None));
    assert_eq!(write_ixml(b"RIFF\0\0\0\0AVI ", &record()), Ok(None));
    assert_eq!(riff_ixml(b"not-a-wave"), None);
    assert_eq!(riff_ixml(b""), None);
}

#[test]
fn a_document_is_read_up_to_its_padding() {
    let wav = wave(&[chunk(b"fmt ", &[0; 3]), chunk(b"iXML", b"<a/>\0\0\0")]);
    assert_eq!(riff_ixml(&wav), Some("<a/>".to_string()));
    let bad = wave(&[chunk(b"iXML", b"<a>\xff</a>")]);
    assert_eq!(riff_ixml(&bad), Some("<a>\u{fffd}</a>".to_string()));
}

#[test]
fn a_cut_off_chunk_ends_the_search() {
    let mut wav = wave(&[chunk(b"data", &[0; 4]), chunk(b"iXML", b"<a/>")]);
    wav[16] = 200;
    assert_eq!(riff_ixml(&wav), None);
    let mut odd = wave(&[chunk(b"iXML", b"<a/>x")]);
    odd.pop();
    assert_eq!(riff_ixml(&odd), Some("<a/>x".to_string()));
}

#[test]
fn a_chunk_without_padding_hides_what_is_written() {
    let mut odd = wave(&[chunk(b"data", &[1, 2, 3])]);
    odd.pop();
    let out = write_ixml(&odd, &record()).unwrap().unwrap();
    assert_eq!(riff_ixml(&out), None);
    assert_eq!(&out[8..odd.len()], &odd[8..]);
}

#[test]
fn a_text_that_is_no_document_says_nothing() {
    let u = overlay_document(record(), "broken");
    assert_eq!(u.category, "AIR");
    let u = overlay_document(record(), "<x><CATEGORY>WATER</CATEGORY><library>L</library></x>");
    assert_eq!(u.category, "WATER");
    assert_eq!(u.ucs_library, "L");
    assert_eq!(u.cat_id, "AIRBlow");
}

#[test]
fn an_entry_is_made_of_name_tags_and_content() {
    let bytes = write_ixml(&sample(), &record()).unwrap().unwrap();
    let r = audio_record_named("/x/Y_z.WAV", Some("Y_z.WAV"), read_generic(None, None), Some(&bytes));
    assert_eq!(r.path, "/x/Y_z.WAV");
    assert_eq!(r.name, "Y_z.WAV");
    assert_eq!(r.ext, "wav");
    assert_eq!(r.ucs.cat_id, "AIRBlow");
    assert_eq!(r.tags.year, "");
    let r = audio_record_named("/", None, read_generic(None, None), None);
    assert_eq!(r.name, "");
    assert_eq!(r.ext, "");
    let r = audio_record(Path::new("/x/Y_z-w.WAV"), read_generic(None, None), None);
    assert_eq!(r.path, "/x/Y_z-w.WAV");
    assert_eq!(r.name, "Y_z-w.WAV");
    assert_eq!(r.ext, "wav");
    assert_eq!(r.ucs.fx_name, "w");
}
