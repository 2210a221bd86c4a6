//! What the native shell calls: the error type at its boundary, the joined
//! library, the version, and the text work behind starting games and covers.
use vstd::prelude::*;
use vstd::string::StringSliceAdditionalSpecFns;
use crate::Spiel;
use crate::text::{finde, letzter_index, zeichen_von, zeichen_anhaengen, string_aus, finde_ab, letzter_index_ab};
use crate::pfad::{anhaengen, erweiterung, erweiterung_von, dateistamm, dateistamm_von, pfad_verbinden, pfad_verbinden_exec};
use crate::text::{getrimmt, trim_anfang, trim_ende, dezimal, dezimal_exec};

verus! {

/// Error at the boundary to the shell: a plain message.
#[derive(Debug, Clone)]
pub enum Fehler {
    Nachricht { meldung: String },
}

impl Fehler {
    /// The message, as the error displays it.
    pub fn meldung(&self) -> (m: String)
        ensures
            m@ == match self {
                Fehler::Nachricht { meldung } => meldung@,
            },
    {
        match self {
            Fehler::Nachricht { meldung } => meldung.clone(),
        }
    }
}

/// An error with the given message.
pub fn fehler(meldung: String) -> (f: Fehler)
    ensures
        f == (Fehler::Nachricht { meldung }),
{
    Fehler::Nachricht { meldung }
}

/// The message of an error.
pub open spec fn meldung_von(f: Fehler) -> Seq<char> {
    match f {
        Fehler::Nachricht { meldung } => meldung@,
    }
}

// ---------------------------------------------------------------- library

/// The joined library (Steam + GOG), alphabetical by title.
pub fn sammele_spiele(steam: Option<Vec<Spiel>>, gog: Option<Vec<Spiel>>) -> (r: Vec<Spiel>)
    ensures
        crate::nach_titel_sortiert(crate::quelle_oder_leer(steam) + crate::quelle_oder_leer(gog), r@),
{
    crate::sammele_spiele(steam, gog)
}

/// The version of the app.
pub fn app_version() -> (v: String)
    ensures
        v@ == "0.3.0"@,
{
    String::from_str("0.3.0")
}

/// The URL that has Steam start a game: `steam://rungameid/<id>`.
pub fn steam_start_url(id: &str) -> (r: String)
    ensures
        r@ == "steam://rungameid/"@ + id@,
{
    let mut r = String::from_str("steam://rungameid/");
    anhaengen(&mut r, id);
    r
}

// ---------------------------------------------------------------- file URLs

/// A byte that stands for itself in a file URL: `A-Z a-z 0-9 - . _ ~`.
pub open spec fn ist_unreserviert(b: u8) -> bool {
    (65 <= b <= 90) || (97 <= b <= 122) || (48 <= b <= 57) || b == 45 || b == 46 || b == 95 || b == 126
}

/// An upper-case hexadecimal digit for `n < 16`.
pub open spec fn hex_ziffer(n: u8) -> char {
    if n < 10 {
        ((48 + n) as u8) as char
    } else {
        ((55 + n) as u8) as char
    }
}

/// One byte of a path in a file URL: itself when unreserved or `'/'`,
/// otherwise `%` and two upper-case hex digits.
pub open spec fn byte_kodiert(b: u8) -> Seq<char> {
    if ist_unreserviert(b) || b == 47 {
        seq![b as char]
    } else {
        seq!['%', hex_ziffer(b >> 4), hex_ziffer(b & 15)]
    }
}

/// A path's bytes, percent-encoded byte by byte.
pub open spec fn prozent_kodiert(bs: Seq<u8>) -> Seq<char>
    decreases bs.len(),
{
    if bs.len() == 0 {
        Seq::empty()
    } else {
        byte_kodiert(bs[0]) + prozent_kodiert(bs.drop_first())
    }
}

/// The value of a hexadecimal digit.
pub open spec fn hex_wert(c: char) -> int {
    if '0' <= c && c <= '9' {
        c as int - 48
    } else if 'A' <= c && c <= 'F' {
        c as int - 55
    } else if 'a' <= c && c <= 'f' {
        c as int - 87
    } else {
        0
    }
}

/// Percent-decoding: `%` and two hex digits stand for one byte, any other
/// character for its own code.
pub open spec fn prozent_dekodiert(cs: Seq<char>) -> Seq<u8>
    decreases cs.len(),
{
    if cs.len() == 0 {
        Seq::empty()
    } else if cs[0] == '%' && cs.len() >= 3 {
        seq![(hex_wert(cs[1]) * 16 + hex_wert(cs[2])) as u8] + prozent_dekodiert(cs.skip(3))
    } else {
        seq![cs[0] as u8] + prozent_dekodiert(cs.drop_first())
    }
}

proof fn lemma_prozent_kodiert_anhaengen(a: Seq<u8>, b: u8)
    ensures
        prozent_kodiert(a.push(b)) == prozent_kodiert(a) + byte_kodiert(b),
    decreases a.len(),
{
    if a.len() == 0 {
        assert(a.push(b).drop_first() =~= a);
        assert(prozent_kodiert(a.push(b)) =~= prozent_kodiert(a) + byte_kodiert(b));
    } else {
        assert(a.push(b).drop_first() =~= a.drop_first().push(b));
        lemma_prozent_kodiert_anhaengen(a.drop_first(), b);
        assert(prozent_kodiert(a.push(b)) =~= prozent_kodiert(a) + byte_kodiert(b));
    }
}

/// The hex digit for `n`.
fn hex_ziffer_exec(n: u8) -> (c: char)
    requires
        n < 16,
    ensures
        c == hex_ziffer(n),
{
    if n < 10 {
        (48 + n) as char
    } else {
        (55 + n) as char
    }
}

/// A `file://` URL for a path: byte-wise percent encoding, where all but the
/// unreserved bytes (`A-Z a-z 0-9 - . _ ~`) and `'/'` become `%XX`; that takes
/// in spaces, `#`, `%`, `&`, `?` and every non-ASCII byte.
pub fn datei_url(pfad: &str) -> (url: String)
    ensures
        url@ == "file://"@ + prozent_kodiert(pfad.spec_bytes()),
{
    let mut url = String::from_str("file://");
    let bytes = pfad.as_bytes();
    let mut i: usize = 0;
    while i < bytes.len()
        invariant
            i <= bytes.len(),
            bytes@ == pfad.spec_bytes(),
            url@ == "file://"@ + prozent_kodiert(bytes@.take(i as int)),
        decreases bytes.len() - i,
    {
        let b = bytes[i];
        proof {
            assert(bytes@.take(i + 1) =~= bytes@.take(i as int).push(b));
            lemma_prozent_kodiert_anhaengen(bytes@.take(i as int), b);
        }
        if (65 <= b && b <= 90) || (97 <= b && b <= 122) || (48 <= b && b <= 57) || b == 45 || b == 46 || b == 95
            || b == 126 || b == 47 {
            zeichen_anhaengen(&mut url, b as char);
        } else {
            assert(b >> 4 < 16 && b & 15 < 16) by (bit_vector);
            zeichen_anhaengen(&mut url, '%');
            zeichen_anhaengen(&mut url, hex_ziffer_exec(b >> 4));
            zeichen_anhaengen(&mut url, hex_ziffer_exec(b & 15));
        }
        i += 1;
    }
    assert(bytes@.take(bytes.len() as int) =~= bytes@);
    url
}

proof fn lemma_byte_dekodiert(b: u8, rest: Seq<char>)
    ensures
        prozent_dekodiert(byte_kodiert(b) + rest) == seq![b] + prozent_dekodiert(rest),
{
    let k = byte_kodiert(b);
    if ist_unreserviert(b) || b == 47 {
        assert((k + rest).drop_first() =~= rest);
        assert(((b as char) as u8) == b);
    } else {
        assert((k + rest).skip(3) =~= rest);
        let hi = b >> 4;
        let lo = b & 15;
        assert(b >> 4 < 16 && b & 15 < 16 && (b >> 4) * 16 + (b & 15) == b) by (bit_vector);
        assert(hex_wert(hex_ziffer(hi)) == hi);
        assert(hex_wert(hex_ziffer(lo)) == lo);
    }
}

/// A file URL names exactly its file: percent-decoding what follows
/// `file://` gives back the path's UTF-8 bytes.
pub proof fn datei_url_dekodierbar(bs: Seq<u8>)
    ensures
        prozent_dekodiert(prozent_kodiert(bs)) == bs,
    decreases bs.len(),
{
    if bs.len() > 0 {
        datei_url_dekodierbar(bs.drop_first());
        lemma_byte_dekodiert(bs[0], prozent_kodiert(bs.drop_first()));
        assert(bs =~= seq![bs[0]] + bs.drop_first());
    }
}

/// A file URL never holds a character that ends or splits a URL's path:
/// each one is unreserved, `'/'`, `'%'` or an upper-case hex digit.
pub proof fn datei_url_nur_sichere_zeichen(bs: Seq<u8>)
    ensures
        forall|i: int| 0 <= i < prozent_kodiert(bs).len() ==> {
            let c = #[trigger] prozent_kodiert(bs)[i];
            ist_unreserviert(c as u8) && (c as u32) < 128 || c == '/' || c == '%' || ('0' <= c && c <= '9') || ('A' <= c && c <= 'F')
        },
    decreases bs.len(),
{
    if bs.len() > 0 {
        datei_url_nur_sichere_zeichen(bs.drop_first());
        let k = byte_kodiert(bs[0]);
        let rest = prozent_kodiert(bs.drop_first());
        let b = bs[0];
        assert(b >> 4 < 16 && b & 15 < 16) by (bit_vector);
        assert forall|i: int| 0 <= i < prozent_kodiert(bs).len() implies {
            let c = #[trigger] prozent_kodiert(bs)[i];
            ist_unreserviert(c as u8) && (c as u32) < 128 || c == '/' || c == '%' || ('0' <= c && c <= '9') || ('A' <= c && c <= 'F')
        } by {
            if i >= k.len() {
                assert(prozent_kodiert(bs)[i] == rest[i - k.len()]);
            }
        }
    }
}

// ---------------------------------------------------------------- covers

/// The text before the first `'?'` (a URL without its query).
pub open spec fn vor_fragezeichen(s: Seq<char>) -> Seq<char> {
    match finde(s, '?') {
        Some(i) => s.take(i),
        None => s,
    }
}

/// The text after the last `'.'` (all of it when there is none).
pub open spec fn nach_letztem_punkt(s: Seq<char>) -> Seq<char> {
    match letzter_index(s, '.') {
        Some(i) => s.skip(i + 1),
        None => s,
    }
}

/// An image file ending the cover cache keeps.
pub open spec fn ist_bild_endung(e: Seq<char>) -> bool {
    e == "jpg"@ || e == "jpeg"@ || e == "png"@ || e == "webp"@
}

/// The file ending of a cover URL: what follows the last `'.'` of the URL
/// without its query, if that is `jpg`, `jpeg`, `png` or `webp`; else `jpg`.
pub open spec fn endung_spec(url: Seq<char>) -> Seq<char> {
    let e = nach_letztem_punkt(vor_fragezeichen(url));
    if ist_bild_endung(e) {
        e
    } else {
        "jpg"@
    }
}

/// The file ending to store a downloaded cover under.
pub fn endung_aus_url(url: &str) -> (r: String)
    ensures
        r@ == endung_spec(url@),
{
    let v = zeichen_von(url);
    assert(v@.subrange(0, v.len() as int) =~= v@);
    let ende = match finde_ab(&v, 0, v.len(), '?') {
        Some(i) => i,
        None => v.len(),
    };
    assert(vor_fragezeichen(v@) =~= v@.subrange(0, ende as int));
    let start = match letzter_index_ab(&v, 0, ende, '.') {
        Some(i) => i + 1,
        None => 0,
    };
    assert(nach_letztem_punkt(v@.subrange(0, ende as int)) =~= v@.subrange(start as int, ende as int));
    let e = string_aus(&v, start, ende);
    if e == String::from_str("jpg") || e == String::from_str("jpeg") || e == String::from_str("png") || e
        == String::from_str("webp") {
        e
    } else {
        String::from_str("jpg")
    }
}

/// The name of a game's cover in the cache: `<spiel_id>.<endung>`.
pub fn cover_dateiname(spiel_id: &str, endung: &str) -> (r: String)
    ensures
        r@ == spiel_id@ + "."@ + endung@,
{
    let mut r = String::from_str(spiel_id);
    anhaengen(&mut r, ".");
    anhaengen(&mut r, endung);
    r
}

/// The names under which the cover cache may hold a game's cover, in the
/// order they are tried: `<spiel_id>.jpg`, `.jpeg`, `.png`, `.webp`.
pub fn cache_kandidaten(spiel_id: &str) -> (r: Vec<String>)
    ensures
        r@.len() == 4,
        r@[0]@ == spiel_id@ + "."@ + "jpg"@,
        r@[1]@ == spiel_id@ + "."@ + "jpeg"@,
        r@[2]@ == spiel_id@ + "."@ + "png"@,
        r@[3]@ == spiel_id@ + "."@ + "webp"@,
{
    let mut r: Vec<String> = Vec::new();
    r.push(cover_dateiname(spiel_id, "jpg"));
    r.push(cover_dateiname(spiel_id, "jpeg"));
    r.push(cover_dateiname(spiel_id, "png"));
    r.push(cover_dateiname(spiel_id, "webp"));
    r
}

/// The ending of the cache name tried in place `k` (see `cache_kandidaten`).
pub open spec fn cache_endung(k: int) -> Seq<char> {
    if k == 0 {
        "jpg"@
    } else if k == 1 {
        "jpeg"@
    } else if k == 2 {
        "png"@
    } else {
        "webp"@
    }
}

/// The first of the four cache names, from place `i` on, that the cache
/// holds (`im_cache[k]`: whether it holds the `k`-th name).
pub open spec fn erster_treffer_ab(im_cache: Seq<bool>, i: int) -> Option<int>
    decreases 4 - i,
{
    if i < 0 || i >= 4 || i >= im_cache.len() {
        None
    } else if im_cache[i] {
        Some(i)
    } else {
        erster_treffer_ab(im_cache, i + 1)
    }
}

/// Where a game's cover comes from.
#[derive(Debug)]
pub enum CoverWeg {
    /// The cover is a file already: its path.
    Vorhanden(String),
    /// The cover has to be downloaded from its URL into the cache, at `ziel`.
    Laden { ziel: String },
}

/// Decides where a game's cover comes from, in this order: the local Steam
/// cover when there is one and it exists (`cover_existiert`); else the first
/// of the cache names (`cache_kandidaten`) that the cache folder holds
/// (`im_cache`, in the same order); else a download of `cover_url` into the
/// cache, under the ending that the URL gives; an error when there is no URL.
pub fn cover_weg(
    spiel_id: &str,
    cover: &str,
    cover_existiert: bool,
    cache_ordner: &str,
    im_cache: &Vec<bool>,
    cover_url: &str,
) -> (r: Result<CoverWeg, Fehler>)
    ensures
        cover@.len() > 0 && cover_existiert ==> (r matches Ok(CoverWeg::Vorhanden(p)) && p@ == cover@),
        !(cover@.len() > 0 && cover_existiert) ==> match erster_treffer_ab(im_cache@, 0) {
            Some(k) => r matches Ok(CoverWeg::Vorhanden(p)) && p@ == pfad_verbinden(
                cache_ordner@,
                spiel_id@ + "."@ + cache_endung(k),
            ),
            None => if cover_url@.len() == 0 {
                r matches Err(f) && meldung_von(f) == "kein Cover vorhanden"@
            } else {
                r matches Ok(CoverWeg::Laden { ziel }) && ziel@ == pfad_verbinden(
                    cache_ordner@,
                    spiel_id@ + "."@ + endung_spec(cover_url@),
                )
            },
        },
{
    if !cover.is_empty() && cover_existiert {
        return Ok(CoverWeg::Vorhanden(String::from_str(cover)));
    }
    let namen = cache_kandidaten(spiel_id);
    let mut k: usize = 0;
    while k < 4 && k < im_cache.len()
        invariant
            k <= 4,
            !(cover@.len() > 0 && cover_existiert),
            namen@.len() == 4,
            forall|m: int| 0 <= m < 4 ==> (#[trigger] namen@[m])@ == spiel_id@ + "."@ + cache_endung(m),
            erster_treffer_ab(im_cache@, 0) == erster_treffer_ab(im_cache@, k as int),
        decreases 4 - k,
    {
        if im_cache[k] {
            return Ok(CoverWeg::Vorhanden(pfad_verbinden_exec(cache_ordner, namen[k].as_str())));
        }
        k += 1;
    }
    if cover_url.is_empty() {
        return Err(fehler(String::from_str("kein Cover vorhanden")));
    }
    let endung = endung_aus_url(cover_url);
    let name = cover_dateiname(spiel_id, endung.as_str());
    Ok(CoverWeg::Laden { ziel: pfad_verbinden_exec(cache_ordner, name.as_str()) })
}

// ---------------------------------------------------------------- GOG start

/// An entry two levels below a GOG folder: its path and whether it is a folder.
#[derive(Debug, Clone)]
pub struct UnterEintrag {
    pub pfad: String,
    pub ist_verzeichnis: bool,
}

/// An entry of a GOG folder: its path, whether it is a folder, and (for a
/// readable folder) its own entries.
#[derive(Debug, Clone)]
pub struct StartEintrag {
    pub pfad: String,
    pub ist_verzeichnis: bool,
    pub unter: Vec<UnterEintrag>,
}

/// A path whose extension is `app`.
pub open spec fn ist_app_pfad(p: Seq<char>) -> bool {
    erweiterung(p) == Some("app"@)
}

/// The first entry that is an `.app` folder.
pub open spec fn erste_app(es: Seq<StartEintrag>) -> Option<Seq<char>>
    decreases es.len(),
{
    if es.len() == 0 {
        None
    } else if es[0].ist_verzeichnis && ist_app_pfad(es[0].pfad@) {
        Some(es[0].pfad@)
    } else {
        erste_app(es.drop_first())
    }
}

/// The first entry that is an `.app` folder, one level down.
pub open spec fn erste_app_unter(us: Seq<UnterEintrag>) -> Option<Seq<char>>
    decreases us.len(),
{
    if us.len() == 0 {
        None
    } else if us[0].ist_verzeichnis && ist_app_pfad(us[0].pfad@) {
        Some(us[0].pfad@)
    } else {
        erste_app_unter(us.drop_first())
    }
}

/// The first `.app` folder two levels down, folder by folder.
pub open spec fn erste_tiefe_app(es: Seq<StartEintrag>) -> Option<Seq<char>>
    decreases es.len(),
{
    if es.len() == 0 {
        None
    } else if es[0].ist_verzeichnis && erste_app_unter(es[0].unter@) is Some {
        erste_app_unter(es[0].unter@)
    } else {
        erste_tiefe_app(es.drop_first())
    }
}

/// The `.app` to start for a GOG game folder: the folder itself when it is
/// an `.app`, else the first `.app` in it, else the first one two levels
/// down (`Cyberpunk 2077/Cyberpunk 2077/Cyberpunk2077.app`); a path that is
/// no folder, or holds none, stays as it is.
pub open spec fn start_pfad_spec(pfad: Seq<char>, ist_verzeichnis: bool, es: Seq<StartEintrag>) -> Seq<char> {
    if !ist_verzeichnis {
        pfad
    } else if ist_app_pfad(pfad) {
        pfad
    } else {
        match erste_app(es) {
            Some(p) => p,
            None => match erste_tiefe_app(es) {
                Some(p) => p,
                None => pfad,
            },
        }
    }
}

proof fn lemma_erste_app_unter(us: Seq<UnterEintrag>)
    ensures
        erste_app_unter(us) is None ==> forall|k: int|
            0 <= k < us.len() ==> !((#[trigger] us[k]).ist_verzeichnis && ist_app_pfad(us[k].pfad@)),
        erste_app_unter(us) matches Some(p) ==> exists|k: int|
            0 <= k < us.len() && (#[trigger] us[k]).ist_verzeichnis && ist_app_pfad(us[k].pfad@) && p == us[k].pfad@
                && forall|m: int| 0 <= m < k ==> !((#[trigger] us[m]).ist_verzeichnis && ist_app_pfad(us[m].pfad@)),
    decreases us.len(),
{
    if us.len() > 0 {
        let rest = us.drop_first();
        lemma_erste_app_unter(rest);
        assert forall|k: int| 0 < k < us.len() implies us[k] == rest[k - 1] by {}
        if !(us[0].ist_verzeichnis && ist_app_pfad(us[0].pfad@)) {
            if let Some(p) = erste_app_unter(rest) {
                let k = choose|k: int|
                    0 <= k < rest.len() && (#[trigger] rest[k]).ist_verzeichnis && ist_app_pfad(rest[k].pfad@) && p
                        == rest[k].pfad@ && forall|m: int|
                        0 <= m < k ==> !((#[trigger] rest[m]).ist_verzeichnis && ist_app_pfad(rest[m].pfad@));
                assert(us[k + 1] == rest[k]);
                assert forall|m: int| 0 <= m < k + 1 implies !((#[trigger] us[m]).ist_verzeichnis && ist_app_pfad(
                    us[m].pfad@,
                )) by {
                    if m > 0 {
                        assert(us[m] == rest[m - 1]);
                    }
                }
            }
        } else {
            assert(us[0].ist_verzeichnis);
        }
    }
}

proof fn lemma_erste_app(es: Seq<StartEintrag>)
    ensures
        erste_app(es) is None ==> forall|i: int|
            0 <= i < es.len() ==> !((#[trigger] es[i]).ist_verzeichnis && ist_app_pfad(es[i].pfad@)),
        erste_app(es) matches Some(p) ==> exists|i: int|
            0 <= i < es.len() && (#[trigger] es[i]).ist_verzeichnis && ist_app_pfad(es[i].pfad@) && p == es[i].pfad@
                && forall|m: int| 0 <= m < i ==> !((#[trigger] es[m]).ist_verzeichnis && ist_app_pfad(es[m].pfad@)),
    decreases es.len(),
{
    if es.len() > 0 {
        let rest = es.drop_first();
        lemma_erste_app(rest);
        assert forall|k: int| 0 < k < es.len() implies es[k] == rest[k - 1] by {}
        if !(es[0].ist_verzeichnis && ist_app_pfad(es[0].pfad@)) {
            if let Some(p) = erste_app(rest) {
                let k = choose|k: int|
                    0 <= k < rest.len() && (#[trigger] rest[k]).ist_verzeichnis && ist_app_pfad(rest[k].pfad@) && p
                        == rest[k].pfad@ && forall|m: int|
                        0 <= m < k ==> !((#[trigger] rest[m]).ist_verzeichnis && ist_app_pfad(rest[m].pfad@));
                assert(es[k + 1] == rest[k]);
                assert forall|m: int| 0 <= m < k + 1 implies !((#[trigger] es[m]).ist_verzeichnis && ist_app_pfad(
                    es[m].pfad@,
                )) by {
                    if m > 0 {
                        assert(es[m] == rest[m - 1]);
                    }
                }
            }
        }
    }
}

/// Whether entry `i`, a folder, holds an `.app` folder at place `k`.
pub open spec fn tiefe_app(es: Seq<StartEintrag>, i: int, k: int) -> bool {
    &&& 0 <= i < es.len()
    &&& es[i].ist_verzeichnis
    &&& 0 <= k < es[i].unter@.len()
    &&& es[i].unter@[k].ist_verzeichnis
    &&& ist_app_pfad(es[i].unter@[k].pfad@)
}

proof fn lemma_erste_tiefe_app(es: Seq<StartEintrag>)
    ensures
        erste_tiefe_app(es) is None ==> forall|i: int, k: int| !#[trigger] tiefe_app(es, i, k),
        erste_tiefe_app(es) matches Some(p) ==> exists|i: int, k: int|
            #[trigger] tiefe_app(es, i, k) && p == es[i].unter@[k].pfad@ && (forall|a: int, b: int|
                a < i ==> !#[trigger] tiefe_app(es, a, b)) && (forall|b: int| b < k ==> !#[trigger] tiefe_app(es, i, b)),
    decreases es.len(),
{
    if es.len() > 0 {
        let rest = es.drop_first();
        lemma_erste_tiefe_app(rest);
        assert forall|a: int, b: int| 0 < a < es.len() implies #[trigger] tiefe_app(es, a, b) == tiefe_app(rest, a - 1, b) by {
            assert(es[a] == rest[a - 1]);
        }
        lemma_erste_app_unter(es[0].unter@);
        if es[0].ist_verzeichnis && erste_app_unter(es[0].unter@) is Some {
            let p = erste_app_unter(es[0].unter@)->0;
            let us = es[0].unter@;
            let k = choose|k: int|
                0 <= k < us.len() && (#[trigger] us[k]).ist_verzeichnis && ist_app_pfad(us[k].pfad@) && p == us[k].pfad@
                    && forall|m: int| 0 <= m < k ==> !((#[trigger] us[m]).ist_verzeichnis && ist_app_pfad(us[m].pfad@));
            assert(tiefe_app(es, 0, k));
            assert forall|b: int| b < k implies !#[trigger] tiefe_app(es, 0, b) by {
                if 0 <= b {
                    assert(!(us[b].ist_verzeichnis && ist_app_pfad(us[b].pfad@)));
                }
            }
        } else {
            assert forall|b: int| !#[trigger] tiefe_app(es, 0, b) by {
                if 0 <= b < es[0].unter@.len() && es[0].ist_verzeichnis {
                    assert(!(es[0].unter@[b].ist_verzeichnis && ist_app_pfad(es[0].unter@[b].pfad@)));
                }
            }
            if let Some(p) = erste_tiefe_app(rest) {
                let (i, k) = choose|i: int, k: int|
                    #[trigger] tiefe_app(rest, i, k) && p == rest[i].unter@[k].pfad@ && (forall|a: int, b: int|
                        a < i ==> !#[trigger] tiefe_app(rest, a, b)) && (forall|b: int| b < k ==> !#[trigger] tiefe_app(rest, i, b));
                assert(tiefe_app(es, i + 1, k));
                assert(es[i + 1] == rest[i]);
                assert forall|a: int, b: int| a < i + 1 implies !#[trigger] tiefe_app(es, a, b) by {
                    if a > 0 {
                        assert(tiefe_app(es, a, b) == tiefe_app(rest, a - 1, b));
                    }
                }
                assert forall|b: int| b < k implies !#[trigger] tiefe_app(es, i + 1, b) by {
                    assert(tiefe_app(es, i + 1, b) == tiefe_app(rest, i, b));
                }
            } else {
                assert forall|a: int, b: int| !#[trigger] tiefe_app(es, a, b) by {
                    if a > 0 {
                        assert(tiefe_app(es, a, b) == tiefe_app(rest, a - 1, b));
                    }
                }
            }
        }
    }
}

/// Where a GOG game starts: a path that is no folder, or an `.app` itself,
/// stays; else the first `.app` folder among its entries; else the first
/// `.app` folder two levels down, searching every subfolder in turn (the
/// first subfolder that holds one, and there its first); only a folder
/// with no `.app` in reach stays as it is.
pub proof fn start_pfad_sucht_alle_unterordner(pfad: Seq<char>, ist_verzeichnis: bool, es: Seq<StartEintrag>)
    ensures
        !ist_verzeichnis || ist_app_pfad(pfad) ==> start_pfad_spec(pfad, ist_verzeichnis, es) == pfad,
        ist_verzeichnis && !ist_app_pfad(pfad) && (exists|i: int|
            0 <= i < es.len() && (#[trigger] es[i]).ist_verzeichnis && ist_app_pfad(es[i].pfad@)) ==> exists|i: int|
            0 <= i < es.len() && (#[trigger] es[i]).ist_verzeichnis && ist_app_pfad(es[i].pfad@)
                && start_pfad_spec(pfad, ist_verzeichnis, es) == es[i].pfad@ && forall|m: int|
                0 <= m < i ==> !((#[trigger] es[m]).ist_verzeichnis && ist_app_pfad(es[m].pfad@)),
        ist_verzeichnis && !ist_app_pfad(pfad) && (forall|i: int|
            0 <= i < es.len() ==> !((#[trigger] es[i]).ist_verzeichnis && ist_app_pfad(es[i].pfad@))) && (exists|
            i: int,
            k: int,
        | #[trigger] tiefe_app(es, i, k)) ==> exists|i: int, k: int|
            #[trigger] tiefe_app(es, i, k) && start_pfad_spec(pfad, ist_verzeichnis, es) == es[i].unter@[k].pfad@
                && (forall|a: int, b: int| a < i ==> !#[trigger] tiefe_app(es, a, b)) && (forall|b: int|
                b < k ==> !#[trigger] tiefe_app(es, i, b)),
        ist_verzeichnis && !ist_app_pfad(pfad) && (forall|i: int|
            0 <= i < es.len() ==> !((#[trigger] es[i]).ist_verzeichnis && ist_app_pfad(es[i].pfad@))) && (forall|
            i: int,
            k: int,
        | !#[trigger] tiefe_app(es, i, k)) ==> start_pfad_spec(pfad, ist_verzeichnis, es) == pfad,
{
    lemma_erste_app(es);
    lemma_erste_tiefe_app(es);
    if ist_verzeichnis && !ist_app_pfad(pfad) {
        if erste_app(es) is None {
            if let Some(p) = erste_tiefe_app(es) {
                let (i, k) = choose|i: int, k: int|
                    #[trigger] tiefe_app(es, i, k) && p == es[i].unter@[k].pfad@ && (forall|a: int, b: int|
                        a < i ==> !#[trigger] tiefe_app(es, a, b)) && (forall|b: int| b < k ==> !#[trigger] tiefe_app(es, i, b));
                assert(tiefe_app(es, i, k));
            }
        } else {
            let p = erste_app(es)->0;
            let i = choose|i: int|
                0 <= i < es.len() && (#[trigger] es[i]).ist_verzeichnis && ist_app_pfad(es[i].pfad@) && p == es[i].pfad@
                    && forall|m: int| 0 <= m < i ==> !((#[trigger] es[m]).ist_verzeichnis && ist_app_pfad(es[m].pfad@));
            assert(es[i].ist_verzeichnis);
        }
    }
}

/// Whether a path's extension is `app`.
pub fn ist_app_pfad_exec(p: &str) -> (b: bool)
    ensures
        b == ist_app_pfad(p@),
{
    match erweiterung_von(p) {
        Some(e) => e == String::from_str("app"),
        None => false,
    }
}

fn erste_app_unter_exec(us: &Vec<UnterEintrag>) -> (r: Option<String>)
    ensures
        crate::text::sicht(r) == erste_app_unter(us@),
{
    let mut i: usize = 0;
    assert(us@.skip(0) =~= us@);
    while i < us.len()
        invariant
            i <= us.len(),
            erste_app_unter(us@) == erste_app_unter(us@.skip(i as int)),
        decreases us.len() - i,
    {
        assert(us@.skip(i as int).drop_first() =~= us@.skip(i + 1));
        if us[i].ist_verzeichnis && ist_app_pfad_exec(us[i].pfad.as_str()) {
            return Some(us[i].pfad.clone());
        }
        i += 1;
    }
    None
}

/// Finds the `.app` to start in a GOG folder, from the folder's entries.
pub fn gog_start_pfad(pfad: &str, ist_verzeichnis: bool, eintraege: &Vec<StartEintrag>) -> (r: String)
    ensures
        r@ == start_pfad_spec(pfad@, ist_verzeichnis, eintraege@),
        !ist_verzeichnis || ist_app_pfad(pfad@) ==> r@ == pfad@,
        ist_verzeichnis && !ist_app_pfad(pfad@) && (exists|i: int|
            0 <= i < eintraege@.len() && (#[trigger] eintraege@[i]).ist_verzeichnis && ist_app_pfad(eintraege@[i].pfad@)) ==> exists|i: int|
            0 <= i < eintraege@.len() && (#[trigger] eintraege@[i]).ist_verzeichnis && ist_app_pfad(eintraege@[i].pfad@)
                && r@ == eintraege@[i].pfad@ && forall|m: int|
                0 <= m < i ==> !((#[trigger] eintraege@[m]).ist_verzeichnis && ist_app_pfad(eintraege@[m].pfad@)),
        ist_verzeichnis && !ist_app_pfad(pfad@) && (forall|i: int|
            0 <= i < eintraege@.len() ==> !((#[trigger] eintraege@[i]).ist_verzeichnis && ist_app_pfad(eintraege@[i].pfad@))) && (exists|
            i: int,
            k: int,
        | #[trigger] tiefe_app(eintraege@, i, k)) ==> exists|i: int, k: int|
            #[trigger] tiefe_app(eintraege@, i, k) && r@ == eintraege@[i].unter@[k].pfad@
                && (forall|a: int, b: int| a < i ==> !#[trigger] tiefe_app(eintraege@, a, b)) && (forall|b: int|
                b < k ==> !#[trigger] tiefe_app(eintraege@, i, b)),
        ist_verzeichnis && !ist_app_pfad(pfad@) && (forall|i: int|
            0 <= i < eintraege@.len() ==> !((#[trigger] eintraege@[i]).ist_verzeichnis && ist_app_pfad(eintraege@[i].pfad@))) && (forall|
            i: int,
            k: int,
        | !#[trigger] tiefe_app(eintraege@, i, k)) ==> r@ == pfad@,
{
    if !ist_verzeichnis || ist_app_pfad_exec(pfad) {
        proof {
            start_pfad_sucht_alle_unterordner(pfad@, ist_verzeichnis, eintraege@);
        }
        return String::from_str(pfad);
    }
    let mut i: usize = 0;
    assert(eintraege@.skip(0) =~= eintraege@);
    while i < eintraege.len()
        invariant
            i <= eintraege.len(),
            erste_app(eintraege@) == erste_app(eintraege@.skip(i as int)),
            ist_verzeichnis && !ist_app_pfad(pfad@),
        decreases eintraege.len() - i,
    {
        assert(eintraege@.skip(i as int).drop_first() =~= eintraege@.skip(i + 1));
        if eintraege[i].ist_verzeichnis && ist_app_pfad_exec(eintraege[i].pfad.as_str()) {
            proof {
                start_pfad_sucht_alle_unterordner(pfad@, ist_verzeichnis, eintraege@);
            }
            return eintraege[i].pfad.clone();
        }
        i += 1;
    }
    let mut j: usize = 0;
    while j < eintraege.len()
        invariant
            j <= eintraege.len(),
            erste_app(eintraege@) is None,
            ist_verzeichnis && !ist_app_pfad(pfad@),
            erste_tiefe_app(eintraege@) == erste_tiefe_app(eintraege@.skip(j as int)),
        decreases eintraege.len() - j,
    {
        assert(eintraege@.skip(j as int).drop_first() =~= eintraege@.skip(j + 1));
        if eintraege[j].ist_verzeichnis {
            if let Some(p) = erste_app_unter_exec(&eintraege[j].unter) {
                proof {
                    start_pfad_sucht_alle_unterordner(pfad@, ist_verzeichnis, eintraege@);
                }
                return p;
            }
        }
        j += 1;
    }
    proof {
        start_pfad_sucht_alle_unterordner(pfad@, ist_verzeichnis, eintraege@);
    }
    String::from_str(pfad)
}

// ---------------------------------------------------------------- GOG binary

/// The folder of an app bundle that holds its programs: `<app>/Contents/MacOS`.
pub fn macos_ordner(app_pfad: &str) -> (r: String)
    ensures
        r@ == pfad_verbinden(app_pfad@, "Contents/MacOS"@),
{
    pfad_verbinden_exec(app_pfad, "Contents/MacOS")
}

/// The program named by the bundle's `CFBundleExecutable`, from what
/// `defaults read` printed: `<app>/Contents/MacOS/<trimmed name>`; none for
/// an empty name.
pub fn binary_aus_plist(app_pfad: &str, ausgabe: &str) -> (r: Option<String>)
    ensures
        crate::text::sicht(r) == (if getrimmt(ausgabe@).len() == 0 {
            None
        } else {
            Some(pfad_verbinden(pfad_verbinden(app_pfad@, "Contents/MacOS"@), getrimmt(ausgabe@)))
        }),
{
    let v = zeichen_von(ausgabe);
    let a = trim_anfang(&v, 0, v.len());
    let e = trim_ende(&v, a, v.len());
    assert(v@.subrange(0, v.len() as int) =~= v@);
    if a == e {
        return None;
    }
    let name = string_aus(&v, a, e);
    let ordner = macos_ordner(app_pfad);
    Some(pfad_verbinden_exec(ordner.as_str(), name.as_str()))
}

/// The program named like the bundle: `<app>/Contents/MacOS/<file stem>`.
pub fn binary_nach_stamm(app_pfad: &str) -> (r: Option<String>)
    ensures
        crate::text::sicht(r) == (match dateistamm(app_pfad@) {
            Some(n) => Some(pfad_verbinden(pfad_verbinden(app_pfad@, "Contents/MacOS"@), n)),
            None => None,
        }),
{
    match dateistamm_von(app_pfad) {
        Some(n) => {
            let ordner = macos_ordner(app_pfad);
            Some(pfad_verbinden_exec(ordner.as_str(), n.as_str()))
        },
        None => None,
    }
}

/// A file of `Contents/MacOS` that may be the program: a regular file that
/// is no `.dylib`, `.sh` or `.plist`, larger than 1000 bytes, and executable
/// by someone.
pub open spec fn ist_binary_kandidat_spec(pfad: Seq<char>, ist_datei: bool, laenge: u64, modus: u32) -> bool {
    &&& ist_datei
    &&& !(erweiterung(pfad) == Some("dylib"@) || erweiterung(pfad) == Some("sh"@) || erweiterung(pfad) == Some("plist"@))
    &&& laenge > 1000
    &&& modus & 0o111 != 0
}

/// Whether a file of `Contents/MacOS` may be the program.
pub fn ist_binary_kandidat(pfad: &str, ist_datei: bool, laenge: u64, modus: u32) -> (b: bool)
    ensures
        b == ist_binary_kandidat_spec(pfad@, ist_datei, laenge, modus),
{
    if !ist_datei {
        return false;
    }
    let ausgeschlossen = match erweiterung_von(pfad) {
        Some(e) => e == String::from_str("dylib") || e == String::from_str("sh") || e == String::from_str("plist"),
        None => false,
    };
    !ausgeschlossen && laenge > 1000 && modus & 0o111 != 0
}

/// The error when a bundle holds no program: `Keine Binary in <app> gefunden`.
pub fn keine_binary(app_pfad: &str) -> (f: Fehler)
    ensures
        meldung_von(f) == "Keine Binary in "@ + app_pfad@ + " gefunden"@,
{
    let mut m = String::from_str("Keine Binary in ");
    anhaengen(&mut m, app_pfad);
    anhaengen(&mut m, " gefunden");
    fehler(m)
}

/// A file of a bundle's `Contents/MacOS`, as the search for its program sees
/// it: path, whether it is a regular file, its length and permission bits.
#[derive(Debug, Clone)]
pub struct MacosDatei {
    pub pfad: String,
    pub ist_datei: bool,
    pub laenge: u64,
    pub modus: u32,
}

/// The first file that may be the program.
pub open spec fn erster_kandidat(ds: Seq<MacosDatei>) -> Option<Seq<char>>
    decreases ds.len(),
{
    if ds.len() == 0 {
        None
    } else if ist_binary_kandidat_spec(ds[0].pfad@, ds[0].ist_datei, ds[0].laenge, ds[0].modus) {
        Some(ds[0].pfad@)
    } else {
        erster_kandidat(ds.drop_first())
    }
}

/// Chooses the program of an `.app` bundle, in this order: the one that
/// `Info.plist` names, when it exists (`plist_binary`); the one named like
/// the bundle, when it exists (`stamm_existiert`); the first file of
/// `Contents/MacOS` that may be the program (`dateien`, in listing order);
/// else the error that there is none.
pub fn binary_waehlen(
    app_pfad: &str,
    plist_binary: Option<String>,
    stamm_existiert: bool,
    dateien: &Vec<MacosDatei>,
) -> (r: Result<String, Fehler>)
    ensures
        match plist_binary {
            Some(p) => r matches Ok(b) && b == p,
            None => match dateistamm(app_pfad@) {
                Some(n) if stamm_existiert => r matches Ok(b) && b@ == pfad_verbinden(
                    pfad_verbinden(app_pfad@, "Contents/MacOS"@),
                    n,
                ),
                _ => match erster_kandidat(dateien@) {
                    Some(k) => r matches Ok(b) && b@ == k,
                    None => r matches Err(f) && meldung_von(f) == "Keine Binary in "@ + app_pfad@ + " gefunden"@,
                },
            },
        },
{
    if plist_binary.is_some() {
        return Ok(plist_binary.unwrap());
    }
    if stamm_existiert {
        if let Some(b) = binary_nach_stamm(app_pfad) {
            return Ok(b);
        }
    }
    let mut i: usize = 0;
    assert(dateien@.skip(0) =~= dateien@);
    while i < dateien.len()
        invariant
            i <= dateien.len(),
            plist_binary is None,
            !(stamm_existiert && dateistamm(app_pfad@) is Some),
            erster_kandidat(dateien@) == erster_kandidat(dateien@.skip(i as int)),
        decreases dateien.len() - i,
    {
        assert(dateien@.skip(i as int).drop_first() =~= dateien@.skip(i + 1));
        let d = &dateien[i];
        if ist_binary_kandidat(d.pfad.as_str(), d.ist_datei, d.laenge, d.modus) {
            return Ok(d.pfad.clone());
        }
        i += 1;
    }
    Err(keine_binary(app_pfad))
}

/// The environment that starts a game with BepInEx, for a bundle whose
/// `Contents/MacOS` is `m`: Doorstop switched on, its target assembly when
/// the preloader is there, the Doorstop library inserted by its absolute path
/// with `m` as library path, and on Apple silicon the native architecture first.
pub open spec fn bepinex_spec(m: Seq<char>, hat_preloader: bool, arm64: bool) -> Seq<(Seq<char>, Seq<char>)> {
    seq![("DOORSTOP_ENABLED"@, "1"@)] + (if hat_preloader {
        seq![("DOORSTOP_TARGET_ASSEMBLY"@, pfad_verbinden(m, "BepInEx/core/BepInEx.Preloader.dll"@))]
    } else {
        Seq::empty()
    }) + seq![
        ("DYLD_INSERT_LIBRARIES"@, pfad_verbinden(m, "libdoorstop.dylib"@)),
        ("DYLD_LIBRARY_PATH"@, m),
    ] + (if arm64 {
        seq![("ARCHPREFERENCE"@, "arm64,x86_64"@)]
    } else {
        Seq::empty()
    })
}

/// The environment variables to start a GOG game with, in the order they are
/// set: none without BepInEx (`libdoorstop.dylib` in `macos_ordner`), else
/// those of `bepinex_spec`.
pub fn bepinex_umgebung(macos_ordner: &str, hat_bepinex: bool, hat_preloader: bool, arm64: bool) -> (r: Vec<(String, String)>)
    ensures
        r@.map_values(|p: (String, String)| (p.0@, p.1@)) == (if hat_bepinex {
            bepinex_spec(macos_ordner@, hat_preloader, arm64)
        } else {
            Seq::empty()
        }),
{
    let mut r: Vec<(String, String)> = Vec::new();
    if !hat_bepinex {
        assert(r@.map_values(|p: (String, String)| (p.0@, p.1@)) =~= Seq::empty());
        return r;
    }
    r.push((String::from_str("DOORSTOP_ENABLED"), String::from_str("1")));
    if hat_preloader {
        r.push(
            (
                String::from_str("DOORSTOP_TARGET_ASSEMBLY"),
                pfad_verbinden_exec(macos_ordner, "BepInEx/core/BepInEx.Preloader.dll"),
            ),
        );
    }
    r.push((String::from_str("DYLD_INSERT_LIBRARIES"), pfad_verbinden_exec(macos_ordner, "libdoorstop.dylib")));
    r.push((String::from_str("DYLD_LIBRARY_PATH"), String::from_str(macos_ordner)));
    if arm64 {
        r.push((String::from_str("ARCHPREFERENCE"), String::from_str("arm64,x86_64")));
    }
    assert(r@.map_values(|p: (String, String)| (p.0@, p.1@)) =~= bepinex_spec(macos_ordner@, hat_preloader, arm64));
    r
}

// ---------------------------------------------------------------- sizes

/// The units of a size, in steps of 1000 (as macOS counts).
pub open spec fn einheit_name(i: int) -> Seq<char> {
    if i == 0 {
        "B"@
    } else if i == 1 {
        "KB"@
    } else if i == 2 {
        "MB"@
    } else if i == 3 {
        "GB"@
    } else if i == 4 {
        "TB"@
    } else {
        "PB"@
    }
}

/// The name of the `i`-th unit (B, KB, MB, GB, TB, PB).
pub fn einheit(i: usize) -> (r: String)
    requires
        i < 6,
    ensures
        r@ == einheit_name(i as int),
{
    if i == 0 {
        String::from_str("B")
    } else if i == 1 {
        String::from_str("KB")
    } else if i == 2 {
        String::from_str("MB")
    } else if i == 3 {
        String::from_str("GB")
    } else if i == 4 {
        String::from_str("TB")
    } else {
        String::from_str("PB")
    }
}

/// A size below one KB as text: the number of bytes and `B` (`"999 B"`).
pub fn bytes_text(bytes: u64) -> (r: String)
    ensures
        r@ == dezimal(bytes as nat) + " B"@,
{
    let mut r = dezimal_exec(bytes);
    anhaengen(&mut r, " B");
    r
}

} // verus!
