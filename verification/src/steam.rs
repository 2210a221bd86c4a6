//! Steam: the key/value lines of Valve's VDF format (`libraryfolders.vdf`,
//! `appmanifest_*.acf`), read line by line.
use vstd::prelude::*;
use crate::Spiel;
use crate::text::{
    nur_leerraum, ist_leerraum, lemma_fuehrender_leerraum_weg, lemma_endender_leerraum_hinter,
    lemma_finde_verschoben, ohne_endenden_leerraum,
    getrimmt, beginnt_mit, ohne_fuehrenden_leerraum, finde, sicht, zeilen, als_u64, grenzen_sicht,
    zeichen_von, string_aus, trim_anfang, trim_ende, beginnt_mit_ab, finde_ab, zeilen_grenzen,
    als_u64_ab, endet_mit, beginnt_mit_text, endet_mit_text,
};
use crate::pfad::{pfad_verbinden, pfad_verbinden_exec, normalform, normalform_exec};

verus! {

/// The value of the pair `"key"<separator>"value"` on a line, unquoted:
/// the trimmed line must start with `schluessel`; after it and any
/// whitespace comes an opening `'"'`, and the value runs to the next `'"'`.
pub open spec fn wert_spec(zeile: Seq<char>, schluessel: Seq<char>) -> Option<Seq<char>> {
    let z = getrimmt(zeile);
    if !beginnt_mit(z, schluessel) {
        None
    } else {
        let rest = ohne_fuehrenden_leerraum(z.skip(schluessel.len() as int));
        if rest.len() == 0 || rest[0] != '"' {
            None
        } else {
            let r = rest.drop_first();
            match finde(r, '"') {
                Some(e) => Some(r.take(e)),
                None => None,
            }
        }
    }
}

/// `wert_spec` on `v[von..bis]`.
pub fn wert_in(v: &Vec<char>, von: usize, bis: usize, schluessel: &Vec<char>) -> (r: Option<String>)
    requires
        von <= bis <= v.len(),
    ensures
        sicht(r) == wert_spec(v@.subrange(von as int, bis as int), schluessel@),
{
    let ghost zeile = v@.subrange(von as int, bis as int);
    let a = trim_anfang(v, von, bis);
    let b = trim_ende(v, a, bis);
    let ghost z = v@.subrange(a as int, b as int);
    assert(z == getrimmt(zeile));
    if !beginnt_mit_ab(v, a, b, schluessel) {
        return None;
    }
    let k = a + schluessel.len();
    assert(z.skip(schluessel.len() as int) =~= v@.subrange(k as int, b as int));
    let c = trim_anfang(v, k, b);
    let ghost rest = v@.subrange(c as int, b as int);
    if c == b || v[c] != '"' {
        return None;
    }
    assert(rest.drop_first() =~= v@.subrange(c + 1, b as int));
    match finde_ab(v, c + 1, b, '"') {
        Some(e) => {
            assert(rest.drop_first().take(e - (c + 1)) =~= v@.subrange(c + 1, e as int));
            Some(string_aus(v, c + 1, e))
        },
        None => None,
    }
}

/// Very small VDF reader: looks for a key/value pair on a line of the form
/// `"key"<separator>"value"` and returns the value without its quotes.
pub fn wert_von(zeile: &str, schluessel: &str) -> (r: Option<String>)
    ensures
        sicht(r) == wert_spec(zeile@, schluessel@),
{
    let v = zeichen_von(zeile);
    let k = zeichen_von(schluessel);
    assert(v@.subrange(0, v.len() as int) =~= v@);
    wert_in(&v, 0, v.len(), &k)
}


/// The value that the last line carrying `schluessel` gives it (a later line
/// overrides an earlier one).
pub open spec fn feld(zeilen: Seq<Seq<char>>, schluessel: Seq<char>) -> Option<Seq<char>>
    decreases zeilen.len(),
{
    if zeilen.len() == 0 {
        None
    } else {
        match wert_spec(zeilen.last(), schluessel) {
            Some(w) => Some(w),
            None => feld(zeilen.drop_last(), schluessel),
        }
    }
}

/// A number field: its decimal value, or 0 when it is missing or no number.
pub open spec fn zahl_oder_null(w: Option<Seq<char>>) -> u64 {
    match w {
        Some(t) => match als_u64(t) {
            Some(n) => n,
            None => 0,
        },
        None => 0,
    }
}

/// A manifest names a game that may stand in the library: installed in full
/// (`StateFlags` missing or `"4"`) and with app id, name and install folder.
pub open spec fn manifest_gueltig(inhalt: Seq<char>) -> bool {
    let z = zeilen(inhalt);
    &&& (match feld(z, "\"StateFlags\""@) {
        Some(w) => w == "4"@,
        None => true,
    })
    &&& feld(z, "\"appid\""@) is Some
    &&& feld(z, "\"name\""@) is Some
    &&& feld(z, "\"installdir\""@) is Some
}

/// The value of `schluessel` in the lines `g` of `v`.
fn feld_aus(v: &Vec<char>, g: &Vec<(usize, usize)>, schluessel: &str) -> (r: Option<String>)
    requires
        forall|i: int| 0 <= i < g.len() ==> (#[trigger] g@[i]).0 <= g@[i].1 <= v.len(),
    ensures
        sicht(r) == feld(grenzen_sicht(v@, g@), schluessel@),
{
    let k = zeichen_von(schluessel);
    let ghost alle = grenzen_sicht(v@, g@);
    let mut r: Option<String> = None;
    let mut i: usize = 0;
    while i < g.len()
        invariant
            i <= g.len(),
            k@ == schluessel@,
            alle == grenzen_sicht(v@, g@),
            forall|j: int| 0 <= j < g.len() ==> (#[trigger] g@[j]).0 <= g@[j].1 <= v.len(),
            sicht(r) == feld(alle.take(i as int), schluessel@),
        decreases g.len() - i,
    {
        let (a, b) = g[i];
        let w = wert_in(v, a, b, &k);
        assert(alle.take(i + 1).drop_last() =~= alle.take(i as int));
        assert(alle.take(i + 1).last() == v@.subrange(a as int, b as int));
        if w.is_some() {
            r = w;
        }
        i += 1;
    }
    assert(alle.take(g.len() as int) =~= alle);
    r
}

/// `zahl_oder_null` on an optional text.
fn zahl_aus(w: &Option<String>) -> (n: u64)
    ensures
        n == zahl_oder_null(sicht(*w)),
{
    match w {
        Some(t) => {
            let v = zeichen_von(t.as_str());
            assert(v@.subrange(0, v.len() as int) =~= v@);
            match als_u64_ab(&v, 0, v.len()) {
                Some(n) => n,
                None => 0,
            }
        },
        None => 0,
    }
}

/// Reads one app manifest into a game. `None` when a required field is
/// missing or the game is not fully installed (`StateFlags` other than 4).
/// The path is `<steamapps_ordner>/common/<installdir>`; the local cover is
/// left empty here, since finding it means looking on disk.
#[verifier::spinoff_prover]
#[verifier::rlimit(30)]
pub fn parse_manifest(inhalt: &str, steamapps_ordner: &str) -> (r: Option<Spiel>)
    ensures
        r is Some <==> manifest_gueltig(inhalt@),
        feld(zeilen(inhalt@), "\"StateFlags\""@) matches Some(w) && w != "4"@ ==> r is None,
        feld(zeilen(inhalt@), "\"appid\""@) is None ==> r is None,
        feld(zeilen(inhalt@), "\"name\""@) is None ==> r is None,
        feld(zeilen(inhalt@), "\"installdir\""@) is None ==> r is None,
        r is None ==> (feld(zeilen(inhalt@), "\"StateFlags\""@) matches Some(w) && w != "4"@) || feld(
            zeilen(inhalt@),
            "\"appid\""@,
        ) is None || feld(zeilen(inhalt@), "\"name\""@) is None || feld(zeilen(inhalt@), "\"installdir\""@) is None,
        r matches Some(s) ==> {
            let z = zeilen(inhalt@);
            &&& s.id@ == feld(z, "\"appid\""@)->0
            &&& s.titel@ == feld(z, "\"name\""@)->0
            &&& s.quelle@ == "Steam"@
            &&& s.pfad@ == pfad_verbinden(
                pfad_verbinden(steamapps_ordner@, "common"@),
                feld(z, "\"installdir\""@)->0,
            )
            &&& s.cover@ == Seq::<char>::empty()
            &&& s.cover_url@ == Seq::<char>::empty()
            &&& s.zuletzt_gespielt == zahl_oder_null(feld(z, "\"LastPlayed\""@))
            &&& s.groesse_bytes == zahl_oder_null(feld(z, "\"SizeOnDisk\""@))
        },
{
    let v = zeichen_von(inhalt);
    let g = zeilen_grenzen(&v);
    let state_flags = feld_aus(&v, &g, "\"StateFlags\"");
    let appid = feld_aus(&v, &g, "\"appid\"");
    let name = feld_aus(&v, &g, "\"name\"");
    let installdir = feld_aus(&v, &g, "\"installdir\"");
    let last_played = feld_aus(&v, &g, "\"LastPlayed\"");
    let size_on_disk = feld_aus(&v, &g, "\"SizeOnDisk\"");
    // Half-finished downloads have no place in the library.
    if let Some(flags) = &state_flags {
        if *flags != String::from_str("4") {
            return None;
        }
    }
    let appid = match appid {
        Some(a) => a,
        None => return None,
    };
    let titel = match name {
        Some(n) => n,
        None => return None,
    };
    let installdir = match installdir {
        Some(d) => d,
        None => return None,
    };
    let common = pfad_verbinden_exec(steamapps_ordner, "common");
    let spiel_pfad = pfad_verbinden_exec(common.as_str(), installdir.as_str());
    Some(Spiel {
        id: appid,
        titel,
        quelle: String::from_str("Steam"),
        pfad: spiel_pfad,
        cover: String::new(),
        cover_url: String::new(),
        zuletzt_gespielt: zahl_aus(&last_played),
        groesse_bytes: zahl_aus(&size_on_disk),
    })
}

/// A field's value is what the last line carrying its key says: some line
/// gives that value and no later line gives the key any value; a field that
/// no line gives has none.
pub proof fn feld_ist_letzte_zeile(zs: Seq<Seq<char>>, k: Seq<char>)
    ensures
        feld(zs, k) matches Some(w) ==> exists|i: int|
            0 <= i < zs.len() && wert_spec(#[trigger] zs[i], k) == Some(w) && forall|j: int|
                i < j < zs.len() ==> wert_spec(#[trigger] zs[j], k) is None,
        feld(zs, k) is None ==> forall|i: int| 0 <= i < zs.len() ==> wert_spec(#[trigger] zs[i], k) is None,
    decreases zs.len(),
{
    if zs.len() > 0 {
        let vorne = zs.drop_last();
        feld_ist_letzte_zeile(vorne, k);
        let n = zs.len() - 1;
        match wert_spec(zs[n], k) {
            Some(w) => {
                assert(wert_spec(zs[n], k) == Some(w));
            },
            None => {
                match feld(vorne, k) {
                    Some(w) => {
                        let i = choose|i: int|
                            0 <= i < vorne.len() && wert_spec(#[trigger] vorne[i], k) == Some(w) && forall|j: int|
                                i < j < vorne.len() ==> wert_spec(#[trigger] vorne[j], k) is None;
                        assert(zs[i] == vorne[i]);
                        assert forall|j: int| i < j < zs.len() implies wert_spec(#[trigger] zs[j], k) is None by {
                            if j < n {
                                assert(zs[j] == vorne[j]);
                            }
                        }
                    },
                    None => {
                        assert forall|i: int| 0 <= i < zs.len() implies wert_spec(#[trigger] zs[i], k) is None by {
                            if i < n {
                                assert(zs[i] == vorne[i]);
                            }
                        }
                    },
                }
            },
        }
    }
}

/// Only fully installed games stand in the library: a manifest whose
/// `StateFlags` is present with any value but `"4"` (a download or update
/// still running, say) names no game, and neither does one without app id,
/// name or install folder; every other manifest names one.
pub proof fn nur_fertige_spiele(inhalt: Seq<char>)
    ensures
        (feld(zeilen(inhalt), "\"StateFlags\""@) matches Some(w) && w != "4"@) ==> !manifest_gueltig(inhalt),
        (feld(zeilen(inhalt), "\"appid\""@) is None || feld(zeilen(inhalt), "\"name\""@) is None || feld(
            zeilen(inhalt),
            "\"installdir\""@,
        ) is None) ==> !manifest_gueltig(inhalt),
        !(feld(zeilen(inhalt), "\"StateFlags\""@) matches Some(w) && w != "4"@) && feld(zeilen(inhalt), "\"appid\""@) is Some
            && feld(zeilen(inhalt), "\"name\""@) is Some && feld(zeilen(inhalt), "\"installdir\""@) is Some
            ==> manifest_gueltig(inhalt),
{
}

/// The VDF reader reads what a key/value line says: on a line made of
/// whitespace, the key, whitespace, and the value in quotes (anything may
/// follow), it returns the value, for every key that does not itself start
/// with whitespace and every value without a quote.
pub proof fn wert_von_liest_paar(p: Seq<char>, k: Seq<char>, t: Seq<char>, w: Seq<char>, q: Seq<char>)
    requires
        nur_leerraum(p),
        nur_leerraum(t),
        k.len() == 0 || !ist_leerraum(k[0]),
        forall|i: int| 0 <= i < w.len() ==> w[i] != '"',
    ensures
        wert_spec(p + k + t + seq!['"'] + w + seq!['"'] + q, k) == Some(w),
{
    let zeile = p + k + t + seq!['"'] + w + seq!['"'] + q;
    let x = k + t + seq!['"'] + w + seq!['"'] + q;
    assert(zeile =~= p + x);
    lemma_fuehrender_leerraum_weg(p, x);
    let wq = seq!['"'] + w + seq!['"'];
    let tp = if k.len() > 0 { t } else { Seq::<char>::empty() };
    assert(nur_leerraum(tp));
    if k.len() > 0 {
        assert(ohne_fuehrenden_leerraum(x) == x);
    } else {
        assert(x =~= t + (wq + q));
        lemma_fuehrender_leerraum_weg(t, wq + q);
        assert(ohne_fuehrenden_leerraum(wq + q) == wq + q);
        assert(ohne_fuehrenden_leerraum(x) =~= k + tp + wq + q);
    }
    let a = k + tp + wq;
    assert(ohne_fuehrenden_leerraum(x) =~= a + q);
    assert(a.last() == '"');
    lemma_endender_leerraum_hinter(a, q);
    let qq = ohne_endenden_leerraum(q);
    let z = a + qq;
    assert(getrimmt(zeile) == z);
    assert(z.subrange(0, k.len() as int) =~= k);
    assert(z.skip(k.len() as int) =~= tp + (wq + qq));
    lemma_fuehrender_leerraum_weg(tp, wq + qq);
    assert(ohne_fuehrenden_leerraum(wq + qq) == wq + qq);
    let r = (wq + qq).drop_first();
    assert(r =~= w + seq!['"'] + qq);
    lemma_finde_verschoben(r, '"', w.len() as int);
    assert(r.skip(w.len() as int)[0] == '"');
    assert(r.take(w.len() as int) =~= w);
}

// ---------------------------------------------------------------- libraries

/// The `steamapps` folders named by `"path"` lines, in order, each once:
/// a folder equal as a path to one listed before is left out.
pub open spec fn ordner_spec(zs: Seq<Seq<char>>) -> Seq<Seq<char>>
    decreases zs.len(),
{
    if zs.len() == 0 {
        Seq::empty()
    } else {
        let vorne = ordner_spec(zs.drop_last());
        match wert_spec(zs.last(), "\"path\""@) {
            Some(w) => {
                let p = pfad_verbinden(w, "steamapps"@);
                if exists|i: int| 0 <= i < vorne.len() && normalform(#[trigger] vorne[i]) == normalform(p) {
                    vorne
                } else {
                    vorne.push(p)
                }
            },
            None => vorne,
        }
    }
}

/// All `steamapps` folders that `libraryfolders.vdf` names (a library can
/// have several); with none, the default folder under `basis`.
pub open spec fn bibliotheken_spec(vdf: Seq<char>, basis: Seq<char>) -> Seq<Seq<char>> {
    let o = ordner_spec(zeilen(vdf));
    if o.len() == 0 {
        seq![pfad_verbinden(basis, "steamapps"@)]
    } else {
        o
    }
}

/// The `steamapps` folders of all Steam libraries, from the text of
/// `libraryfolders.vdf` (lines like `"path"  "/Users/.../Steam"`).
#[verifier::spinoff_prover]
#[verifier::rlimit(30)]
pub fn bibliotheken_aus_vdf(vdf: &str, basis: &str) -> (r: Vec<String>)
    ensures
        r@.map_values(|o: String| o@) == bibliotheken_spec(vdf@, basis@),
{
    let v = zeichen_von(vdf);
    let g = zeilen_grenzen(&v);
    let k = zeichen_von("\"path\"");
    let ghost alle = zeilen(vdf@);
    let mut ordner: Vec<String> = Vec::new();
    let mut normal: Vec<String> = Vec::new();
    let mut i: usize = 0;
    while i < g.len()
        invariant
            i <= g.len(),
            k@ == "\"path\""@,
            alle == zeilen(vdf@),
            grenzen_sicht(v@, g@) == alle,
            forall|j: int| 0 <= j < g.len() ==> (#[trigger] g@[j]).0 <= g@[j].1 <= v.len(),
            ordner@.map_values(|o: String| o@) == ordner_spec(alle.take(i as int)),
            normal.len() == ordner.len(),
            forall|j: int| 0 <= j < normal.len() ==> (#[trigger] normal@[j])@ == normalform(ordner@[j]@),
        decreases g.len() - i,
    {
        let (a, b) = g[i];
        let ghost vorher = ordner@.map_values(|o: String| o@);
        assert(alle.take(i + 1).drop_last() =~= alle.take(i as int));
        assert(alle.take(i + 1).last() == v@.subrange(a as int, b as int));
        if let Some(w) = wert_in(&v, a, b, &k) {
            let p = pfad_verbinden_exec(w.as_str(), "steamapps");
            let n = normalform_exec(p.as_str());
            let mut j: usize = 0;
            let mut gefunden = false;
            while j < normal.len()
                invariant
                    j <= normal.len(),
                    normal.len() == ordner.len(),
                    vorher == ordner@.map_values(|o: String| o@),
                    forall|m: int| 0 <= m < normal.len() ==> (#[trigger] normal@[m])@ == normalform(ordner@[m]@),
                    gefunden ==> exists|m: int| 0 <= m < vorher.len() && normalform(#[trigger] vorher[m]) == n@,
                    !gefunden ==> forall|m: int| 0 <= m < j ==> normalform(#[trigger] vorher[m]) != n@,
                decreases normal.len() - j,
            {
                if normal[j] == n {
                    assert(normalform(vorher[j as int]) == n@);
                    gefunden = true;
                }
                j += 1;
            }
            if !gefunden {
                ordner.push(p);
                normal.push(n);
                assert(ordner@.map_values(|o: String| o@) =~= vorher.push(pfad_verbinden(w@, "steamapps"@)));
            }
        }
        i += 1;
    }
    assert(alle.take(g.len() as int) =~= alle);
    if ordner.len() == 0 {
        let standard = pfad_verbinden_exec(basis, "steamapps");
        ordner.push(standard);
        assert(ordner@.map_values(|o: String| o@) =~= seq![pfad_verbinden(basis@, "steamapps"@)]);
    }
    ordner
}

/// No two folders of `ordner_spec` are the same path.
proof fn lemma_ordner_einmalig(zs: Seq<Seq<char>>)
    ensures
        forall|i: int, j: int| 0 <= i < j < ordner_spec(zs).len() ==>
            normalform(#[trigger] ordner_spec(zs)[i]) != normalform(#[trigger] ordner_spec(zs)[j]),
    decreases zs.len(),
{
    if zs.len() > 0 {
        let vorne = ordner_spec(zs.drop_last());
        lemma_ordner_einmalig(zs.drop_last());
        match wert_spec(zs.last(), "\"path\""@) {
            Some(w) => {
                let p = pfad_verbinden(w, "steamapps"@);
                if !(exists|i: int| 0 <= i < vorne.len() && normalform(#[trigger] vorne[i]) == normalform(p)) {
                    let o = vorne.push(p);
                    assert(o == ordner_spec(zs));
                    assert forall|i: int, j: int| 0 <= i < j < o.len() implies normalform(#[trigger] o[i])
                        != normalform(#[trigger] o[j]) by {
                        if j == vorne.len() {
                            assert(o[i] == vorne[i]);
                        } else {
                            assert(o[i] == vorne[i] && o[j] == vorne[j]);
                        }
                    }
                }
            },
            None => {},
        }
    }
}

/// Every library is looked at once, and there is always one to look at: the
/// folders are never empty, and no two of them are the same path.
pub proof fn bibliotheken_einmalig(vdf: Seq<char>, basis: Seq<char>)
    ensures
        bibliotheken_spec(vdf, basis).len() >= 1,
        forall|i: int, j: int| 0 <= i < j < bibliotheken_spec(vdf, basis).len() ==>
            normalform(#[trigger] bibliotheken_spec(vdf, basis)[i]) != normalform(
                #[trigger] bibliotheken_spec(vdf, basis)[j],
            ),
{
    lemma_ordner_einmalig(zeilen(vdf));
}

/// An app manifest's file name: `appmanifest_*.acf`.
pub fn ist_manifest_dateiname(name: &str) -> (b: bool)
    ensures
        b == (beginnt_mit(name@, "appmanifest_"@) && endet_mit(name@, ".acf"@)),
{
    beginnt_mit_text(name, "appmanifest_") && endet_mit_text(name, ".acf")
}

/// An entry of a game's folder in Steam's library cache: its path, whether
/// it is a folder, and whether a `library_capsule.jpg` lies in it.
#[derive(Debug, Clone)]
pub struct CacheEintrag {
    pub pfad: String,
    pub ist_verzeichnis: bool,
    pub hat_capsule: bool,
}

/// The first folder that holds a capsule.
pub open spec fn erste_capsule(es: Seq<CacheEintrag>) -> Option<Seq<char>>
    decreases es.len(),
{
    if es.len() == 0 {
        None
    } else if es[0].ist_verzeichnis && es[0].hat_capsule {
        Some(es[0].pfad@)
    } else {
        erste_capsule(es.drop_first())
    }
}

/// The capsule cover (300×450) of a game, from the entries of its folder in
/// `appcache/librarycache/<appid>/`: `<folder>/library_capsule.jpg` of the
/// first folder that holds one; empty when none does.
pub fn capsule_aus(eintraege: &Vec<CacheEintrag>) -> (r: String)
    ensures
        r@ == (match erste_capsule(eintraege@) {
            Some(p) => pfad_verbinden(p, "library_capsule.jpg"@),
            None => Seq::<char>::empty(),
        }),
{
    let mut i: usize = 0;
    assert(eintraege@.skip(0) =~= eintraege@);
    while i < eintraege.len()
        invariant
            i <= eintraege.len(),
            erste_capsule(eintraege@) == erste_capsule(eintraege@.skip(i as int)),
        decreases eintraege.len() - i,
    {
        assert(eintraege@.skip(i as int).drop_first() =~= eintraege@.skip(i + 1));
        if eintraege[i].ist_verzeichnis && eintraege[i].hat_capsule {
            return pfad_verbinden_exec(eintraege[i].pfad.as_str(), "library_capsule.jpg");
        }
        i += 1;
    }
    String::new()
}

} // verus!
