use famulus_games::oberflaeche::{als_data_url, ascii_klein_exec, endung_von};

#[test]
fn data_url_mit_typ_und_base64() {
    assert_eq!(als_data_url(b"hello", "png"), "data:image/png;base64,aGVsbG8=");
    assert_eq!(als_data_url(b"hell", "JPG"), "data:image/jpeg;base64,aGVsbA==");
    assert_eq!(als_data_url(b"hel", "WebP"), "data:image/webp;base64,aGVs");
    assert_eq!(als_data_url(b"", "gif"), "data:image/jpeg;base64,");
    assert_eq!(als_data_url(&[0xfb, 0xff, 0xbf], "png"), "data:image/png;base64,+/+/");
}

#[test]
fn endung_und_kleinschreibung() {
    assert_eq!(endung_von("/x/Cover.JPEG"), "jpeg");
    assert_eq!(endung_von("/x/ohne"), "jpg");
    assert_eq!(ascii_klein_exec("ÄbC-Z"), "Äbc-z");
}

use famulus_games::bridge::CoverWeg;
use famulus_games::oberflaeche::cover_plan;

#[test]
fn cover_plan_ohne_url_und_mit_cache() {
    assert_eq!(cover_plan("1", "", "/c", &vec![true; 4]).unwrap_err(), "keine Cover-URL");
    match cover_plan("1", "https://x/a.webp?s=1", "/c", &vec![false, true, false, false]).unwrap() {
        CoverWeg::Vorhanden(p) => assert_eq!(p, "/c/1.jpeg"),
        _ => panic!("cached cover expected"),
    }
    match cover_plan("1", "https://x/a.webp?s=1", "/c", &vec![false; 4]).unwrap() {
        CoverWeg::Laden { ziel } => assert_eq!(ziel, "/c/1.webp"),
        _ => panic!("download expected"),
    }
}
