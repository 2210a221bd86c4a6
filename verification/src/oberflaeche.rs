//! Helpers of the window shell: covers handed to a web view as data URLs.
use vstd::prelude::*;
use crate::pfad::{erweiterung, erweiterung_von};
use crate::text::{zeichen_von, zeichen_anhaengen};
use crate::pfad::{anhaengen, pfad_verbinden};
use crate::bridge::{cover_weg, cache_endung, endung_spec, erster_treffer_ab, CoverWeg};
use base64::Engine;

verus! {

/// A character of the standard base64 alphabet (RFC 4648) for `n < 64`.
pub open spec fn b64_zeichen(n: u8) -> char {
    if n < 26 {
        ((65 + n) as u8) as char
    } else if n < 52 {
        ((71 + n) as u8) as char
    } else if n < 62 {
        ((n - 4) as u8) as char
    } else if n == 62 {
        '+'
    } else {
        '/'
    }
}

/// Standard base64 (RFC 4648) with `=` padding: three bytes become four
/// characters; a last group of one or two bytes is padded.
pub open spec fn base64_standard(b: Seq<u8>) -> Seq<char>
    decreases b.len(),
{
    if b.len() == 0 {
        Seq::empty()
    } else if b.len() == 1 {
        seq![b64_zeichen(b[0] >> 2), b64_zeichen((b[0] & 3) << 4), '=', '=']
    } else if b.len() == 2 {
        seq![
            b64_zeichen(b[0] >> 2),
            b64_zeichen(((b[0] & 3) << 4) | (b[1] >> 4)),
            b64_zeichen((b[1] & 15) << 2),
            '=',
        ]
    } else {
        seq![
            b64_zeichen(b[0] >> 2),
            b64_zeichen(((b[0] & 3) << 4) | (b[1] >> 4)),
            b64_zeichen(((b[1] & 15) << 2) | (b[2] >> 6)),
            b64_zeichen(b[2] & 63),
        ] + base64_standard(b.skip(3))
    }
}

/// Base64 of a byte slice. Calls `base64::engine::general_purpose::STANDARD.encode`
/// (the standard alphabet, with `=` padding); the contract claims the result
/// is `base64_standard` of the bytes. The crate's length computation panics
/// only past `usize::MAX` output characters, which no slice of at most
/// `isize::MAX` bytes reaches.
#[verifier::external_body]
fn base64_kodieren(bytes: &[u8]) -> (r: String)
    requires
        bytes@.len() <= isize::MAX,
    ensures
        r@ == base64_standard(bytes@),
{
    base64::engine::general_purpose::STANDARD.encode(bytes)
}

/// `str::to_ascii_lowercase`: `A`-`Z` become `a`-`z`, all else stays.
pub open spec fn ascii_klein(s: Seq<char>) -> Seq<char> {
    Seq::new(s.len(), |i: int| if 'A' <= s[i] && s[i] <= 'Z' {
        ((s[i] as u32 + 32) as u8) as char
    } else {
        s[i]
    })
}

/// The text in ASCII lowercase.
pub fn ascii_klein_exec(s: &str) -> (r: String)
    ensures
        r@ == ascii_klein(s@),
{
    let v = zeichen_von(s);
    let mut r = String::new();
    let mut i: usize = 0;
    while i < v.len()
        invariant
            i <= v.len(),
            v@ == s@,
            r@ == ascii_klein(s@).take(i as int),
        decreases v.len() - i,
    {
        let c = v[i];
        let k = if 'A' <= c && c <= 'Z' {
            ((c as u32 + 32) as u8) as char
        } else {
            c
        };
        zeichen_anhaengen(&mut r, k);
        assert(ascii_klein(s@).take(i + 1) =~= ascii_klein(s@).take(i as int).push(k));
        i += 1;
    }
    assert(ascii_klein(s@).take(v.len() as int) =~= ascii_klein(s@));
    r
}

/// The file ending of a path, in ASCII lowercase; `jpg` when it has none.
pub fn endung_von(pfad: &str) -> (r: String)
    ensures
        r@ == (match erweiterung(pfad@) {
            Some(e) => ascii_klein(e),
            None => "jpg"@,
        }),
{
    match erweiterung_von(pfad) {
        Some(e) => ascii_klein_exec(e.as_str()),
        None => String::from_str("jpg"),
    }
}

/// The media type of an image by its file ending.
pub open spec fn bildtyp(endung: Seq<char>) -> Seq<char> {
    let e = ascii_klein(endung);
    if e == "png"@ {
        "image/png"@
    } else if e == "webp"@ {
        "image/webp"@
    } else {
        "image/jpeg"@
    }
}

/// An image as a data URL: `data:<type>;base64,<bytes in base64>`, the type
/// read from the file ending (`jpg`/`jpeg` and anything unknown: JPEG).
pub fn als_data_url(bytes: &[u8], endung: &str) -> (r: String)
    requires
        bytes@.len() <= isize::MAX,
    ensures
        r@ == "data:"@ + bildtyp(endung@) + ";base64,"@ + base64_standard(bytes@),
{
    let e = ascii_klein_exec(endung);
    let typ = if e == String::from_str("png") {
        String::from_str("image/png")
    } else if e == String::from_str("webp") {
        String::from_str("image/webp")
    } else {
        String::from_str("image/jpeg")
    };
    let mut r = String::from_str("data:");
    anhaengen(&mut r, typ.as_str());
    anhaengen(&mut r, ";base64,");
    let kodiert = base64_kodieren(bytes);
    anhaengen(&mut r, kodiert.as_str());
    r
}

/// Decides where the window's cover of a game comes from: without a URL
/// there is none; else the first of the cache names (`cache_kandidaten`)
/// that the cache folder holds (`im_cache`, in the same order); else a
/// download of the URL into the cache, under the ending the URL gives.
pub fn cover_plan(spiel_id: &str, url: &str, cache_ordner: &str, im_cache: &Vec<bool>) -> (r: Result<CoverWeg, String>)
    ensures
        url@.len() == 0 ==> (r matches Err(m) && m@ == "keine Cover-URL"@),
        url@.len() > 0 ==> match erster_treffer_ab(im_cache@, 0) {
            Some(k) => r matches Ok(CoverWeg::Vorhanden(p)) && p@ == pfad_verbinden(
                cache_ordner@,
                spiel_id@ + "."@ + cache_endung(k),
            ),
            None => r matches Ok(CoverWeg::Laden { ziel }) && ziel@ == pfad_verbinden(
                cache_ordner@,
                spiel_id@ + "."@ + endung_spec(url@),
            ),
        },
{
    if url.is_empty() {
        return Err(String::from_str("keine Cover-URL"));
    }
    match cover_weg(spiel_id, "", false, cache_ordner, im_cache, url) {
        Ok(w) => Ok(w),
        Err(_) => Err(String::from_str("keine Cover-URL")),
    }
}

} // verus!
