//! SteamCMD back end: reading and restoring `LastPlayed` in app manifests,
//! reading SteamCMD's output lines and login result, and the state of the one
//! download that may run at a time.
use vstd::prelude::*;
use crate::bridge::{Fehler, fehler, meldung_von};
use crate::text::{
    getrimmt, beginnt_mit, finde, finde_text, enthaelt, sicht, zeilen, grenzen_sicht,
    ohne_fuehrenden_leerraum, ohne_fuehrende_anfuehrungszeichen, fuehrende_tabs, kleinschreibung,
    zeichen_von, string_aus, trim_anfang, trim_ende, beginnt_mit_ab, finde_ab, finde_text_ab,
    enthaelt_ab, anfuehrungszeichen_ueberspringen, tabs_ende, zeilen_grenzen, zeichen_anhaengen,
    kleinbuchstaben,
};
use crate::pfad::{anhaengen, eltern, eltern_exec, pfad_verbinden, pfad_verbinden_exec};

verus! {

// ---------------------------------------------------------------- manifest

/// A line whose trimmed text starts with `"LastPlayed"`.
pub open spec fn ist_lp_zeile(l: Seq<char>) -> bool {
    beginnt_mit(getrimmt(l), "\"LastPlayed\""@)
}

/// The `LastPlayed` value on a line: after the key, the trimmed rest without
/// its leading quotes, up to the next quote.
pub open spec fn lp_wert_zeile(l: Seq<char>) -> Option<Seq<char>> {
    let z = getrimmt(l);
    if beginnt_mit(z, "\"LastPlayed\""@) {
        let r = ohne_fuehrende_anfuehrungszeichen(getrimmt(z.skip("\"LastPlayed\""@.len() as int)));
        match finde(r, '"') {
            Some(e) => Some(r.take(e)),
            None => None,
        }
    } else {
        None
    }
}

/// The first line that gives a `LastPlayed` value gives it.
pub open spec fn erster_lp_wert(zs: Seq<Seq<char>>) -> Option<Seq<char>>
    decreases zs.len(),
{
    if zs.len() == 0 {
        None
    } else {
        match lp_wert_zeile(zs[0]) {
            Some(w) => Some(w),
            None => erster_lp_wert(zs.drop_first()),
        }
    }
}

/// A `LastPlayed` line rewritten to carry `w`, its indenting tabs kept;
/// other lines unchanged.
pub open spec fn neue_zeile(l: Seq<char>, w: Seq<char>) -> Seq<char> {
    if ist_lp_zeile(l) {
        fuehrende_tabs(l) + "\"LastPlayed\"\t\t\""@ + w + "\""@
    } else {
        l
    }
}

/// Lines joined, each ended by `'\n'`.
pub open spec fn mit_zeilenenden(zs: Seq<Seq<char>>) -> Seq<char>
    decreases zs.len(),
{
    if zs.len() == 0 {
        Seq::empty()
    } else {
        mit_zeilenenden(zs.drop_last()) + zs.last() + seq!['\n']
    }
}

/// The lines of `t`, each rewritten by `neue_zeile`.
pub open spec fn neue_zeilen(t: Seq<char>, w: Seq<char>) -> Seq<Seq<char>> {
    Seq::new(zeilen(t).len(), |i: int| neue_zeile(zeilen(t)[i], w))
}

/// The manifest text with every `LastPlayed` line set to `w`.
pub open spec fn lp_gesetzt(t: Seq<char>, w: Seq<char>) -> Seq<char> {
    mit_zeilenenden(neue_zeilen(t, w))
}

/// `lp_wert_zeile` of `v[a..b]`.
fn lp_wert_in(v: &Vec<char>, a: usize, b: usize) -> (r: Option<String>)
    requires
        a <= b <= v.len(),
    ensures
        sicht(r) == lp_wert_zeile(v@.subrange(a as int, b as int)),
{
    let s = trim_anfang(v, a, b);
    let e = trim_ende(v, s, b);
    let ghost z = v@.subrange(s as int, e as int);
    assert(z == getrimmt(v@.subrange(a as int, b as int)));
    let lp = zeichen_von("\"LastPlayed\"");
    if !beginnt_mit_ab(v, s, e, &lp) {
        return None;
    }
    let k = s + lp.len();
    assert(z.skip(lp@.len() as int) =~= v@.subrange(k as int, e as int));
    let c = trim_anfang(v, k, e);
    let d = trim_ende(v, c, e);
    let q = anfuehrungszeichen_ueberspringen(v, c, d);
    match finde_ab(v, q, d, '"') {
        Some(x) => {
            assert(v@.subrange(q as int, d as int).take(x - q) =~= v@.subrange(q as int, x as int));
            Some(string_aus(v, q, x))
        },
        None => None,
    }
}

/// The `LastPlayed` value of a manifest text (`None` when there is none).
pub fn last_played_aus_manifest(text: &str) -> (r: Option<String>)
    ensures
        sicht(r) == erster_lp_wert(zeilen(text@)),
{
    let v = zeichen_von(text);
    let g = zeilen_grenzen(&v);
    let ghost alle = grenzen_sicht(v@, g@);
    let mut i: usize = 0;
    assert(alle.skip(0) =~= alle);
    while i < g.len()
        invariant
            i <= g.len(),
            alle == grenzen_sicht(v@, g@),
            alle == zeilen(text@),
            forall|j: int| 0 <= j < g.len() ==> (#[trigger] g@[j]).0 <= g@[j].1 <= v.len(),
            erster_lp_wert(alle) == erster_lp_wert(alle.skip(i as int)),
        decreases g.len() - i,
    {
        let (a, b) = g[i];
        assert(alle.skip(i as int)[0] == v@.subrange(a as int, b as int));
        assert(alle.skip(i as int).drop_first() =~= alle.skip(i + 1));
        let w = lp_wert_in(&v, a, b);
        if w.is_some() {
            return w;
        }
        i += 1;
    }
    None
}

/// `neue_zeile` of `v[a..b]`.
fn neue_zeile_exec(v: &Vec<char>, a: usize, b: usize, wert: &str, lp: &Vec<char>) -> (r: String)
    requires
        a <= b <= v.len(),
        lp@ == "\"LastPlayed\""@,
    ensures
        r@ == neue_zeile(v@.subrange(a as int, b as int), wert@),
{
    let s = trim_anfang(v, a, b);
    let e = trim_ende(v, s, b);
    if beginnt_mit_ab(v, s, e, lp) {
        let t = tabs_ende(v, a, b);
        let mut r = string_aus(v, a, t);
        anhaengen(&mut r, "\"LastPlayed\"\t\t\"");
        anhaengen(&mut r, wert);
        anhaengen(&mut r, "\"");
        r
    } else {
        string_aus(v, a, b)
    }
}

/// Sets `LastPlayed` in a manifest text to `wert`: every line whose trimmed
/// text starts with `"LastPlayed"` becomes that key and the value, after the
/// line's leading tabs; every line ends in `'\n'`.
#[verifier::spinoff_prover]
#[verifier::rlimit(30)]
pub fn last_played_setzen(text: &str, wert: &str) -> (r: String)
    ensures
        r@ == lp_gesetzt(text@, wert@),
{
    let v = zeichen_von(text);
    let g = zeilen_grenzen(&v);
    let ghost neu = neue_zeilen(text@, wert@);
    let lp = zeichen_von("\"LastPlayed\"");
    let mut erg = String::new();
    let mut i: usize = 0;
    while i < g.len()
        invariant
            i <= g.len(),
            lp@ == "\"LastPlayed\""@,
            neu == neue_zeilen(text@, wert@),
            grenzen_sicht(v@, g@) == zeilen(text@),
            forall|j: int| 0 <= j < g.len() ==> (#[trigger] g@[j]).0 <= g@[j].1 <= v.len(),
            erg@ == mit_zeilenenden(neu.take(i as int)),
        decreases g.len() - i,
    {
        let (a, b) = g[i];
        assert(zeilen(text@)[i as int] == v@.subrange(a as int, b as int));
        let ghost vorher = erg@;
        let zeile = neue_zeile_exec(&v, a, b, wert, &lp);
        anhaengen(&mut erg, zeile.as_str());
        zeichen_anhaengen(&mut erg, '\n');
        assert(neu.take(i + 1).drop_last() =~= neu.take(i as int));
        assert(erg@ =~= vorher + neu[i as int] + seq!['\n']);
        i += 1;
    }
    assert(neu.take(g.len() as int) =~= neu);
    erg
}

/// The value to restore after an update: the manifest's `LastPlayed`, unless
/// it is missing or `"0"` (SteamCMD resets it to 0).
pub fn zu_sichernder_wert(text: &str) -> (r: Option<String>)
    ensures
        sicht(r) == (match erster_lp_wert(zeilen(text@)) {
            Some(w) => if w == "0"@ {
                None
            } else {
                Some(w)
            },
            None => None,
        }),
{
    match last_played_aus_manifest(text) {
        Some(w) => {
            if w == String::from_str("0") {
                None
            } else {
                Some(w)
            }
        },
        None => None,
    }
}

/// What cleanup writes back into the manifest: with a saved value that the
/// manifest does not hold, the text with `LastPlayed` set to it; otherwise
/// nothing (`None`: leave the file as it is).
pub fn wiederhergestellt(text: &str, last_played: Option<&str>) -> (r: Option<String>)
    ensures
        sicht(r) == (match last_played {
            Some(w) => if erster_lp_wert(zeilen(text@)) == Some(w@) {
                None
            } else {
                Some(lp_gesetzt(text@, w@))
            },
            None => None,
        }),
{
    match last_played {
        Some(w) => {
            let aktuell = last_played_aus_manifest(text);
            let gleich = match &aktuell {
                Some(a) => *a == String::from_str(w),
                None => false,
            };
            if gleich {
                None
            } else {
                Some(last_played_setzen(text, w))
            }
        },
        None => None,
    }
}

/// The file name of an app's manifest: `appmanifest_<appid>.acf`.
pub fn manifest_dateiname(appid: &str) -> (r: String)
    ensures
        r@ == "appmanifest_"@ + appid@ + ".acf"@,
{
    let mut r = String::from_str("appmanifest_");
    anhaengen(&mut r, appid);
    anhaengen(&mut r, ".acf");
    r
}

// ---------------------------------------------------------------- output lines

/// Phase of a download.
#[derive(Debug, Clone, Copy, PartialEq, Eq, Structural)]
pub enum Phase {
    Wartet,
    Laedt,
    Fertig,
    Fehler,
}

impl Phase {
    /// The phase's name as the shell shows it.
    pub fn name(&self) -> (n: String)
        ensures
            n@ == phasen_name(*self),
    {
        match self {
            Phase::Wartet => String::from_str("wartet"),
            Phase::Laedt => String::from_str("laedt"),
            Phase::Fertig => String::from_str("fertig"),
            Phase::Fehler => String::from_str("fehler"),
        }
    }
}

pub open spec fn phasen_name(p: Phase) -> Seq<char> {
    match p {
        Phase::Wartet => "wartet"@,
        Phase::Laedt => "laedt"@,
        Phase::Fertig => "fertig"@,
        Phase::Fehler => "fehler"@,
    }
}

/// Progress in percent: 0, 100, or the number that a text reads as (0 when
/// the text is no number).
#[derive(Debug, Clone)]
pub enum Prozent {
    Null,
    Hundert,
    Zahl(String),
}

impl Prozent {
    pub fn kopie(&self) -> (r: Prozent)
        ensures
            r == *self,
    {
        match self {
            Prozent::Null => Prozent::Null,
            Prozent::Hundert => Prozent::Hundert,
            Prozent::Zahl(t) => Prozent::Zahl(t.clone()),
        }
    }
}

/// A SteamCMD output line read: phase, progress and message.
#[derive(Debug, Clone)]
pub struct Deutung {
    pub phase: Phase,
    pub prozent: Prozent,
    pub meldung: String,
}

/// The index of the first `' '` or `'('` in a text, or its length.
pub open spec fn trenner_index(s: Seq<char>) -> int
    decreases s.len(),
{
    if s.len() == 0 {
        0
    } else if s[0] == ' ' || s[0] == '(' {
        0
    } else {
        trenner_index(s.drop_first()) + 1
    }
}

/// A line that reports an error.
pub open spec fn ist_fehlerzeile(z: Seq<char>) -> bool {
    beginnt_mit(z, "ERROR"@) || enthaelt(z, "ERROR ("@) || enthaelt(z, "ERROR!"@)
}

/// What a SteamCMD output line says, read from its trimmed text `z`:
/// a progress line (`progress:`), success, an error, or nothing of note.
pub open spec fn deutung_passt(z: Seq<char>, r: Option<Deutung>) -> bool {
    match finde_text(z, "progress:"@) {
        Some(i) => {
            let rest = ohne_fuehrenden_leerraum(z.skip(i + "progress:"@.len()));
            &&& r matches Some(d)
            &&& d.phase == (if enthaelt(z, "downloading"@) {
                Phase::Laedt
            } else {
                Phase::Wartet
            })
            &&& d.prozent matches Prozent::Zahl(t)
            &&& t@ == rest.take(trenner_index(rest))
            &&& d.meldung@ == z
        },
        None => if enthaelt(z, "Success!"@) {
            &&& r matches Some(d)
            &&& d.phase == Phase::Fertig
            &&& d.prozent is Hundert
            &&& d.meldung@ == (if enthaelt(z, "already up to date"@) {
                "Bereits aktuell"@
            } else {
                "Fertig"@
            })
        } else if ist_fehlerzeile(z) {
            &&& r matches Some(d)
            &&& d.phase == Phase::Fehler
            &&& d.prozent is Null
            &&& d.meldung@ == z
        } else {
            r is None
        },
    }
}

/// Index of the first `' '` or `'('` in `v[von..bis]`, or `bis`.
fn trenner_ab(v: &Vec<char>, von: usize, bis: usize) -> (i: usize)
    requires
        von <= bis <= v.len(),
    ensures
        von <= i <= bis,
        i - von == trenner_index(v@.subrange(von as int, bis as int)),
{
    let mut i = von;
    while i < bis && v[i] != ' ' && v[i] != '('
        invariant
            von <= i <= bis <= v.len(),
            trenner_index(v@.subrange(von as int, bis as int)) == (i - von) + trenner_index(
                v@.subrange(i as int, bis as int),
            ),
        decreases bis - i,
    {
        assert(v@.subrange(i as int, bis as int).drop_first() =~= v@.subrange(i + 1, bis as int));
        i += 1;
    }
    i
}

proof fn lemma_trenner_index(s: Seq<char>)
    ensures
        0 <= trenner_index(s) <= s.len(),
        forall|k: int| 0 <= k < trenner_index(s) ==> s[k] != ' ' && s[k] != '(',
        trenner_index(s) < s.len() ==> s[trenner_index(s)] == ' ' || s[trenner_index(s)] == '(',
    decreases s.len(),
{
    if s.len() > 0 && !(s[0] == ' ' || s[0] == '(') {
        lemma_trenner_index(s.drop_first());
        assert forall|k: int| 0 <= k < trenner_index(s) implies s[k] != ' ' && s[k] != '(' by {
            if k > 0 {
                assert(s[k] == s.drop_first()[k - 1]);
            }
        }
    }
}

/// The number of a progress line is the word after `progress:` and its
/// spaces, up to the next space or `(` (or the line's end): for
/// `progress: 42.7 (1234 / 5678)` it is `42.7`.
pub proof fn fortschritt_ist_das_wort_nach_progress(z: Seq<char>, r: Option<Deutung>)
    requires
        deutung_passt(z, r),
        finde_text(z, "progress:"@) is Some,
    ensures
        ({
            let rest = ohne_fuehrenden_leerraum(z.skip(finde_text(z, "progress:"@)->0 + "progress:"@.len()));
            r matches Some(d) && d.prozent matches Prozent::Zahl(t) && t@.len() <= rest.len() && t@ == rest.take(
                t@.len() as int,
            ) && (forall|k: int| 0 <= k < t@.len() ==> t@[k] != ' ' && t@[k] != '(') && (t@.len() < rest.len() ==> (
            rest[t@.len() as int] == ' ' || rest[t@.len() as int] == '('))
        }),
{
    let rest = ohne_fuehrenden_leerraum(z.skip(finde_text(z, "progress:"@)->0 + "progress:"@.len()));
    lemma_trenner_index(rest);
}

/// How a SteamCMD output line reads, whatever else it says: a line with
/// `progress:` reports progress (loading when it says `downloading`, else
/// waiting); else one with `Success!` reports the end; else one that starts
/// with `ERROR` or holds `ERROR (` or `ERROR!` anywhere reports an error with
/// the line as message; every other line is of no note.
pub proof fn zeilen_lesen(z: Seq<char>, r: Option<Deutung>)
    requires
        deutung_passt(z, r),
    ensures
        ({
            &&& finde_text(z, "progress:"@) is Some ==> (r matches Some(d) && d.meldung@ == z && d.prozent is Zahl
                && (d.phase == Phase::Laedt || d.phase == Phase::Wartet) && (d.phase == Phase::Laedt <==> enthaelt(
                z,
                "downloading"@,
            )))
            &&& finde_text(z, "progress:"@) is None && enthaelt(z, "Success!"@) ==> (r matches Some(d) && d.phase
                == Phase::Fertig && d.prozent is Hundert && d.meldung@ == (if enthaelt(z, "already up to date"@) {
                "Bereits aktuell"@
            } else {
                "Fertig"@
            }))
            &&& finde_text(z, "progress:"@) is None && !enthaelt(z, "Success!"@) && (beginnt_mit(z, "ERROR"@)
                || enthaelt(z, "ERROR ("@) || enthaelt(z, "ERROR!"@)) ==> (r matches Some(d) && d.phase == Phase::Fehler
                && d.prozent is Null && d.meldung@ == z)
            &&& finde_text(z, "progress:"@) is None && !enthaelt(z, "Success!"@) && !(beginnt_mit(z, "ERROR"@)
                || enthaelt(z, "ERROR ("@) || enthaelt(z, "ERROR!"@)) ==> r is None
        }),
{
}

/// Reads a SteamCMD output line: progress, success, error, or `None`.
pub fn zeile_deuten(zeile: &str) -> (r: Option<Deutung>)
    ensures
        deutung_passt(getrimmt(zeile@), r),
        ({
            let z = getrimmt(zeile@);
            &&& finde_text(z, "progress:"@) is Some ==> (r matches Some(d) && d.meldung@ == z && d.prozent is Zahl
                && (d.phase == Phase::Laedt || d.phase == Phase::Wartet) && (d.phase == Phase::Laedt <==> enthaelt(
                z,
                "downloading"@,
            )))
            &&& finde_text(z, "progress:"@) is None && enthaelt(z, "Success!"@) ==> (r matches Some(d) && d.phase
                == Phase::Fertig && d.prozent is Hundert && d.meldung@ == (if enthaelt(z, "already up to date"@) {
                "Bereits aktuell"@
            } else {
                "Fertig"@
            }))
            &&& finde_text(z, "progress:"@) is None && !enthaelt(z, "Success!"@) && (beginnt_mit(z, "ERROR"@)
                || enthaelt(z, "ERROR ("@) || enthaelt(z, "ERROR!"@)) ==> (r matches Some(d) && d.phase == Phase::Fehler
                && d.prozent is Null && d.meldung@ == z)
            &&& finde_text(z, "progress:"@) is None && !enthaelt(z, "Success!"@) && !(beginnt_mit(z, "ERROR"@)
                || enthaelt(z, "ERROR ("@) || enthaelt(z, "ERROR!"@)) ==> r is None
        }),
{
    let v = zeichen_von(zeile);
    let a = trim_anfang(&v, 0, v.len());
    let b = trim_ende(&v, a, v.len());
    assert(v@.subrange(0, v.len() as int) =~= v@);
    let ghost z = v@.subrange(a as int, b as int);
    let z_text = string_aus(&v, a, b);
    let progress = zeichen_von("progress:");
    if let Some(i) = finde_text_ab(&v, a, b, &progress) {
        proof {
            crate::text::lemma_finde_text_grenzen(z, progress@);
        }
        let k = i + progress.len();
        assert(z.skip((i - a) + progress@.len()) =~= v@.subrange(k as int, b as int));
        let c = trim_anfang(&v, k, b);
        let t = trenner_ab(&v, c, b);
        assert(v@.subrange(c as int, b as int).take(t - c) =~= v@.subrange(c as int, t as int));
        let phase = if enthaelt_ab(&v, a, b, "downloading") {
            Phase::Laedt
        } else {
            Phase::Wartet
        };
        return Some(Deutung { phase, prozent: Prozent::Zahl(string_aus(&v, c, t)), meldung: z_text });
    }
    if enthaelt_ab(&v, a, b, "Success!") {
        let meldung = if enthaelt_ab(&v, a, b, "already up to date") {
            String::from_str("Bereits aktuell")
        } else {
            String::from_str("Fertig")
        };
        return Some(Deutung { phase: Phase::Fertig, prozent: Prozent::Hundert, meldung });
    }
    let error = zeichen_von("ERROR");
    if beginnt_mit_ab(&v, a, b, &error) || enthaelt_ab(&v, a, b, "ERROR (") || enthaelt_ab(
        &v,
        a,
        b,
        "ERROR!",
    ) {
        return Some(Deutung { phase: Phase::Fehler, prozent: Prozent::Null, meldung: z_text });
    }
    None
}

// ---------------------------------------------------------------- login

/// A line of `loginusers.vdf` names the account: trimmed and lowercased, it
/// holds the quoted lowercase account name and the word `accountname`.
pub open spec fn nennt_konto(l: Seq<char>, benutzer: Seq<char>) -> bool {
    let z = kleinschreibung(getrimmt(l));
    enthaelt(z, seq!['"'] + kleinschreibung(benutzer) + seq!['"']) && enthaelt(z, "accountname"@)
}

/// Whether the text of `loginusers.vdf` shows `benutzer` as logged in to
/// SteamCMD, regardless of case.
pub fn angemeldet_in(text: &str, benutzer: &str) -> (b: bool)
    ensures
        b == exists|i: int| 0 <= i < zeilen(text@).len() && nennt_konto(#[trigger] zeilen(text@)[i], benutzer@),
{
    let name = kleinbuchstaben(benutzer);
    let mut muster = String::from_str("\"");
    anhaengen(&mut muster, name.as_str());
    anhaengen(&mut muster, "\"");
    let muster_v = zeichen_von(muster.as_str());
    proof {
        reveal_strlit("\"");
        assert(muster_v@ =~= seq!['"'] + kleinschreibung(benutzer@) + seq!['"']);
    }
    let konto = zeichen_von("accountname");
    let v = zeichen_von(text);
    let g = zeilen_grenzen(&v);
    let ghost alle = zeilen(text@);
    let mut i: usize = 0;
    while i < g.len()
        invariant
            i <= g.len(),
            alle == zeilen(text@),
            grenzen_sicht(v@, g@) == alle,
            muster_v@ == seq!['"'] + kleinschreibung(benutzer@) + seq!['"'],
            konto@ == "accountname"@,
            forall|j: int| 0 <= j < g.len() ==> (#[trigger] g@[j]).0 <= g@[j].1 <= v.len(),
            forall|j: int| 0 <= j < i ==> !nennt_konto(#[trigger] alle[j], benutzer@),
        decreases g.len() - i,
    {
        let (a, b) = g[i];
        assert(alle[i as int] == v@.subrange(a as int, b as int));
        let s = trim_anfang(&v, a, b);
        let e = trim_ende(&v, s, b);
        let z = string_aus(&v, s, e);
        let klein = kleinbuchstaben(z.as_str());
        let kv = zeichen_von(klein.as_str());
        assert(kv@.subrange(0, kv.len() as int) =~= kv@);
        if finde_text_ab(&kv, 0, kv.len(), &muster_v).is_some() && finde_text_ab(&kv, 0, kv.len(), &konto).is_some() {
            assert(nennt_konto(alle[i as int], benutzer@));
            return true;
        }
        i += 1;
    }
    false
}

/// The first line that holds `ERROR`, if any.
pub open spec fn erste_fehlerzeile(zs: Seq<Seq<char>>) -> Option<Seq<char>>
    decreases zs.len(),
{
    if zs.len() == 0 {
        None
    } else if enthaelt(zs[0], "ERROR"@) {
        Some(zs[0])
    } else {
        erste_fehlerzeile(zs.drop_first())
    }
}

/// What a login run ended in, from SteamCMD's output and whether a login
/// was stored: the clear errors first, then any `ERROR` line, then success.
pub open spec fn anmeldung_ergebnis(ausgabe: Seq<char>, angemeldet: bool) -> Result<Seq<char>, Seq<char>> {
    if enthaelt(ausgabe, "Invalid Password"@) {
        Err("Passwort falsch"@)
    } else if enthaelt(ausgabe, "Invalid Steam Guard code"@) || enthaelt(ausgabe, "Two-factor code mismatch"@)
        || enthaelt(ausgabe, "already used"@) {
        Err("Steam-Guard-Code falsch oder abgelaufen"@)
    } else if let Some(z) = erste_fehlerzeile(zeilen(ausgabe)) {
        Err(getrimmt(z))
    } else if angemeldet {
        Ok("Angemeldet – SteamCMD kann jetzt herunterladen"@)
    } else {
        Err("Anmeldung lief durch, aber kein Login gespeichert – bitte erneut versuchen"@)
    }
}

proof fn lemma_erste_fehlerzeile(zs: Seq<Seq<char>>)
    ensures
        erste_fehlerzeile(zs) is None ==> forall|i: int| 0 <= i < zs.len() ==> !enthaelt(#[trigger] zs[i], "ERROR"@),
        forall|i: int|
            0 <= i < zs.len() && enthaelt(#[trigger] zs[i], "ERROR"@) && (forall|j: int|
                0 <= j < i ==> !enthaelt(#[trigger] zs[j], "ERROR"@)) ==> erste_fehlerzeile(zs) == Some(zs[i]),
    decreases zs.len(),
{
    if zs.len() > 0 {
        let rest = zs.drop_first();
        lemma_erste_fehlerzeile(rest);
        assert forall|i: int| 0 < i < zs.len() implies zs[i] == rest[i - 1] by {}
        if !enthaelt(zs[0], "ERROR"@) {
            assert forall|i: int|
                0 <= i < zs.len() && enthaelt(#[trigger] zs[i], "ERROR"@) && (forall|j: int|
                    0 <= j < i ==> !enthaelt(#[trigger] zs[j], "ERROR"@)) implies erste_fehlerzeile(zs) == Some(zs[i]) by {
                assert(i > 0);
                assert(zs[i] == rest[i - 1]);
                assert forall|j: int| 0 <= j < i - 1 implies !enthaelt(#[trigger] rest[j], "ERROR"@) by {
                    assert(rest[j] == zs[j + 1]);
                }
            }
            if erste_fehlerzeile(zs) is None {
                assert forall|i: int| 0 <= i < zs.len() implies !enthaelt(#[trigger] zs[i], "ERROR"@) by {
                    if i > 0 {
                        assert(zs[i] == rest[i - 1]);
                    }
                }
            }
        }
    }
}

/// A login that SteamCMD refused is a failure whatever login is stored: a
/// wrong password, and (without one) a wrong, mismatched or used Steam Guard
/// code, each give their error; success needs a stored login and none of
/// these in the output.
pub proof fn abgelehnte_anmeldung_scheitert(ausgabe: Seq<char>, angemeldet: bool)
    ensures
        enthaelt(ausgabe, "Invalid Password"@) ==> (anmeldung_ergebnis(ausgabe, angemeldet) matches Err(m) && m == "Passwort falsch"@),
        !enthaelt(ausgabe, "Invalid Password"@) && (enthaelt(ausgabe, "Invalid Steam Guard code"@) || enthaelt(
            ausgabe,
            "Two-factor code mismatch"@,
        ) || enthaelt(ausgabe, "already used"@)) ==> (anmeldung_ergebnis(ausgabe, angemeldet) matches Err(m) && m
            == "Steam-Guard-Code falsch oder abgelaufen"@),
        anmeldung_ergebnis(ausgabe, angemeldet) is Ok ==> angemeldet && !enthaelt(ausgabe, "Invalid Password"@) && !enthaelt(
            ausgabe,
            "Invalid Steam Guard code"@,
        ) && !enthaelt(ausgabe, "Two-factor code mismatch"@) && !enthaelt(ausgabe, "already used"@),
        anmeldung_ergebnis(ausgabe, angemeldet) is Ok ==> forall|i: int|
            0 <= i < zeilen(ausgabe).len() ==> !enthaelt(#[trigger] zeilen(ausgabe)[i], "ERROR"@),
        !enthaelt(ausgabe, "Invalid Password"@) && !enthaelt(ausgabe, "Invalid Steam Guard code"@) && !enthaelt(
            ausgabe,
            "Two-factor code mismatch"@,
        ) && !enthaelt(ausgabe, "already used"@) ==> forall|i: int|
            0 <= i < zeilen(ausgabe).len() && enthaelt(#[trigger] zeilen(ausgabe)[i], "ERROR"@) && (forall|j: int|
                0 <= j < i ==> !enthaelt(#[trigger] zeilen(ausgabe)[j], "ERROR"@)) ==> anmeldung_ergebnis(
                ausgabe,
                angemeldet,
            ) == Err::<Seq<char>, Seq<char>>(getrimmt(zeilen(ausgabe)[i])),
{
    lemma_erste_fehlerzeile(zeilen(ausgabe));
}

/// Reads the outcome of a login run from SteamCMD's output; `angemeldet`
/// tells whether SteamCMD stored the login afterwards.
pub fn anmeldung_auswerten(ausgabe: &str, angemeldet: bool) -> (r: Result<String, Fehler>)
    ensures
        enthaelt(ausgabe@, "Invalid Password"@) ==> (r matches Err(f) && meldung_von(f) == "Passwort falsch"@),
        !enthaelt(ausgabe@, "Invalid Password"@) && (enthaelt(ausgabe@, "Invalid Steam Guard code"@) || enthaelt(
            ausgabe@,
            "Two-factor code mismatch"@,
        ) || enthaelt(ausgabe@, "already used"@)) ==> (r matches Err(f) && meldung_von(f)
            == "Steam-Guard-Code falsch oder abgelaufen"@),
        r matches Ok(_) ==> angemeldet && !enthaelt(ausgabe@, "Invalid Password"@) && !enthaelt(
            ausgabe@,
            "Invalid Steam Guard code"@,
        ) && !enthaelt(ausgabe@, "Two-factor code mismatch"@) && !enthaelt(ausgabe@, "already used"@),
        match (r, anmeldung_ergebnis(ausgabe@, angemeldet)) {
            (Ok(m), Ok(e)) => m@ == e,
            (Err(f), Err(e)) => meldung_von(f) == e,
            _ => false,
        },
        r is Ok ==> forall|i: int|
            0 <= i < zeilen(ausgabe@).len() ==> !enthaelt(#[trigger] zeilen(ausgabe@)[i], "ERROR"@),
        !enthaelt(ausgabe@, "Invalid Password"@) && !enthaelt(ausgabe@, "Invalid Steam Guard code"@) && !enthaelt(
            ausgabe@,
            "Two-factor code mismatch"@,
        ) && !enthaelt(ausgabe@, "already used"@) ==> forall|i: int|
            0 <= i < zeilen(ausgabe@).len() && enthaelt(#[trigger] zeilen(ausgabe@)[i], "ERROR"@) && (forall|j: int|
                0 <= j < i ==> !enthaelt(#[trigger] zeilen(ausgabe@)[j], "ERROR"@)) ==> (r matches Err(f) && meldung_von(
                f,
            ) == getrimmt(zeilen(ausgabe@)[i])),
{
    proof {
        abgelehnte_anmeldung_scheitert(ausgabe@, angemeldet);
    }
    let v = zeichen_von(ausgabe);
    assert(v@.subrange(0, v.len() as int) =~= v@);
    if enthaelt_ab(&v, 0, v.len(), "Invalid Password") {
        return Err(fehler(String::from_str("Passwort falsch")));
    }
    if enthaelt_ab(&v, 0, v.len(), "Invalid Steam Guard code") || enthaelt_ab(&v, 0, v.len(), "Two-factor code mismatch")
        || enthaelt_ab(&v, 0, v.len(), "already used") {
        return Err(fehler(String::from_str("Steam-Guard-Code falsch oder abgelaufen")));
    }
    let g = zeilen_grenzen(&v);
    let ghost alle = zeilen(ausgabe@);
    let mut i: usize = 0;
    assert(alle.skip(0) =~= alle);
    while i < g.len()
        invariant
            i <= g.len(),
            alle == zeilen(ausgabe@),
            grenzen_sicht(v@, g@) == alle,
            forall|j: int| 0 <= j < g.len() ==> (#[trigger] g@[j]).0 <= g@[j].1 <= v.len(),
            erste_fehlerzeile(alle) == erste_fehlerzeile(alle.skip(i as int)),
            !enthaelt(ausgabe@, "Invalid Password"@),
            !(enthaelt(ausgabe@, "Invalid Steam Guard code"@) || enthaelt(ausgabe@, "Two-factor code mismatch"@)
                || enthaelt(ausgabe@, "already used"@)),
        decreases g.len() - i,
    {
        let (a, b) = g[i];
        assert(alle.skip(i as int)[0] == v@.subrange(a as int, b as int));
        assert(alle.skip(i as int).drop_first() =~= alle.skip(i + 1));
        if enthaelt_ab(&v, a, b, "ERROR") {
            let s = trim_anfang(&v, a, b);
            let e = trim_ende(&v, s, b);
            assert(erste_fehlerzeile(alle) == Some(v@.subrange(a as int, b as int)));
            let m = string_aus(&v, s, e);
            assert(m@ == getrimmt(v@.subrange(a as int, b as int)));
            proof {
                abgelehnte_anmeldung_scheitert(ausgabe@, angemeldet);
            }
            return Err(fehler(m));
        }
        i += 1;
    }
    if angemeldet {
        Ok(String::from_str("Angemeldet – SteamCMD kann jetzt herunterladen"))
    } else {
        Err(fehler(String::from_str("Anmeldung lief durch, aber kein Login gespeichert – bitte erneut versuchen")))
    }
}

// ---------------------------------------------------------------- download state

/// State of a running (or finished) download.
#[derive(Debug, Clone)]
pub struct DownloadStand {
    pub appid: String,
    pub phase: Phase,
    pub prozent: Prozent,
    pub meldung: String,
}

impl DownloadStand {
    pub fn kopie(&self) -> (r: DownloadStand)
        ensures
            r == *self,
    {
        DownloadStand {
            appid: self.appid.clone(),
            phase: self.phase,
            prozent: self.prozent.kopie(),
            meldung: self.meldung.clone(),
        }
    }
}

/// The download slot: its state and the SteamCMD process it runs, if any.
#[derive(Debug)]
pub struct AktiverDownload {
    pub stand: DownloadStand,
    pub kind_pid: Option<u32>,
}

/// The one download slot there is (`None`: no download ever ran).
#[derive(Debug)]
pub struct DownloadZustand {
    pub aktiv: Option<AktiverDownload>,
}

/// The slot as a fresh reservation for `appid` leaves it: waiting, at 0 %,
/// with the start message and no process yet.
pub open spec fn reserviert(z: DownloadZustand, appid: Seq<char>) -> bool {
    z.aktiv matches Some(d) && d.stand.appid@ == appid && d.stand.phase == Phase::Wartet && d.stand.prozent is Null
        && d.stand.meldung@ == "SteamCMD startet…"@ && d.kind_pid is None
}

/// A download occupies the slot while it waits or loads.
pub open spec fn belegt(z: DownloadZustand) -> bool {
    z.aktiv matches Some(d) && (d.stand.phase == Phase::Wartet || d.stand.phase == Phase::Laedt)
}

impl DownloadZustand {
    /// The slot before any download.
    pub fn neu() -> (z: DownloadZustand)
        ensures
            z.aktiv is None,
    {
        DownloadZustand { aktiv: None }
    }

    /// The current state of the download (`None` when none ever ran).
    pub fn download_stand(&self) -> (r: Option<DownloadStand>)
        ensures
            r == (match self.aktiv {
                Some(d) => Some(d.stand),
                None => None,
            }),
    {
        match &self.aktiv {
            Some(d) => Some(d.stand.kopie()),
            None => None,
        }
    }

    /// Whether a download occupies the slot.
    pub fn ist_belegt(&self) -> (b: bool)
        ensures
            b == belegt(*self),
    {
        match &self.aktiv {
            Some(d) => d.stand.phase == Phase::Wartet || d.stand.phase == Phase::Laedt,
            None => false,
        }
    }

    /// Reserves the slot for `appid`, in one step with the check that it is
    /// free: refused while another download waits or loads.
    pub fn reservieren(&mut self, appid: &str) -> (r: Result<(), Fehler>)
        ensures
            belegt(*old(self)) ==> (r matches Err(f) && meldung_von(f) == "Es läuft bereits ein Download"@
                && *final(self) == *old(self)),
            !belegt(*old(self)) ==> r is Ok,
            !belegt(*old(self)) ==> reserviert(*final(self), appid@),
    {
        if self.ist_belegt() {
            return Err(fehler(String::from_str("Es läuft bereits ein Download")));
        }
        self.aktiv = Some(
            AktiverDownload {
                stand: DownloadStand {
                    appid: String::from_str(appid),
                    phase: Phase::Wartet,
                    prozent: Prozent::Null,
                    meldung: String::from_str("SteamCMD startet…"),
                },
                kind_pid: None,
            },
        );
        Ok(())
    }

    /// Gives the slot back (a reservation whose preparation failed).
    pub fn freigeben(&mut self)
        ensures
            final(self).aktiv is None,
    {
        self.aktiv = None;
    }

    /// Records the SteamCMD process of the download in the slot.
    pub fn pid_setzen(&mut self, pid: u32)
        ensures
            match old(self).aktiv {
                Some(d) => final(self).aktiv == Some(AktiverDownload { stand: d.stand, kind_pid: Some(pid) }),
                None => final(self).aktiv is None,
            },
    {
        match &mut self.aktiv {
            Some(d) => {
                d.kind_pid = Some(pid);
            },
            None => {},
        }
    }

    /// Sets the state of the download; the process stays recorded. With no
    /// download in the slot, the state opens one without a process.
    pub fn phase_setzen(&mut self, appid: &str, phase: Phase, prozent: Prozent, meldung: &str)
        ensures
            final(self).aktiv matches Some(d) && d.stand.appid@ == appid@ && d.stand.phase == phase
                && d.stand.prozent == prozent && d.stand.meldung@ == meldung@ && d.kind_pid == (match old(
                self,
            ).aktiv {
                Some(a) => a.kind_pid,
                None => None,
            }),
    {
        let neu = DownloadStand {
            appid: String::from_str(appid),
            phase,
            prozent,
            meldung: String::from_str(meldung),
        };
        match &mut self.aktiv {
            Some(d) => {
                d.stand = neu;
            },
            None => {
                self.aktiv = Some(AktiverDownload { stand: neu, kind_pid: None });
            },
        }
    }

    /// Takes the recorded process out of the slot, to stop it.
    pub fn pid_nehmen(&mut self) -> (r: Option<u32>)
        ensures
            r == (match old(self).aktiv {
                Some(d) => d.kind_pid,
                None => None,
            }),
            match old(self).aktiv {
                Some(d) => final(self).aktiv == Some(AktiverDownload { stand: d.stand, kind_pid: None }),
                None => final(self).aktiv is None,
            },
    {
        match &mut self.aktiv {
            Some(d) => {
                let pid = d.kind_pid;
                d.kind_pid = None;
                pid
            },
            None => None,
        }
    }

    /// Marks the download as stopped by the user.
    pub fn als_abgebrochen_markieren(&mut self)
        ensures
            match old(self).aktiv {
                Some(d) => final(self).aktiv matches Some(n) && n.kind_pid == d.kind_pid && n.stand.appid
                    == d.stand.appid && n.stand.prozent == d.stand.prozent && n.stand.phase == Phase::Fehler
                    && n.stand.meldung@ == "Abgebrochen"@,
                None => final(self).aktiv is None,
            },
    {
        match &mut self.aktiv {
            Some(d) => {
                d.stand.phase = Phase::Fehler;
                d.stand.meldung = String::from_str("Abgebrochen");
            },
            None => {},
        }
    }

    /// Takes in one output line of SteamCMD: a line of note updates the
    /// state. Returns whether to keep reading (not once the download is
    /// finished or failed).
    pub fn zeile_melden(&mut self, appid: &str, zeile: &str) -> (weiter: bool)
        ensures
            ({
                let z = getrimmt(zeile@);
                exists|d: Option<Deutung>| #![trigger deutung_passt(z, d)]
                    deutung_passt(z, d) && match d {
                        Some(d) => final(self).aktiv matches Some(n) && n.stand.appid@ == appid@ && n.stand.phase
                            == d.phase && n.stand.prozent == d.prozent && n.stand.meldung@ == d.meldung@ && n.kind_pid
                            == (match old(self).aktiv {
                            Some(a) => a.kind_pid,
                            None => None,
                        }) && weiter == !(d.phase == Phase::Fertig || d.phase == Phase::Fehler),
                        None => *final(self) == *old(self) && weiter,
                    }
            }),
            !weiter ==> !belegt(*final(self)),
    {
        let d = zeile_deuten(zeile);
        match d {
            Some(d) => {
                let ende = d.phase == Phase::Fertig || d.phase == Phase::Fehler;
                let ghost dd = d;
                self.phase_setzen(appid, d.phase, d.prozent, d.meldung.as_str());
                assert(deutung_passt(getrimmt(zeile@), Some(dd)));
                !ende
            },
            None => {
                assert(deutung_passt(getrimmt(zeile@), None));
                true
            },
        }
    }

    /// After SteamCMD ended: a download that never reached an end state
    /// (the process was killed, say) is marked failed.
    pub fn abschliessen(&mut self, appid: &str)
        ensures
            belegt(*old(self)) ==> (final(self).aktiv matches Some(n) && n.stand.appid@ == appid@ && n.stand.phase
                == Phase::Fehler && n.stand.prozent is Null && n.stand.meldung@ == "SteamCMD endete ohne Ergebnis"@
                && n.kind_pid == old(self).aktiv->0.kind_pid),
            !belegt(*old(self)) ==> *final(self) == *old(self),
            !belegt(*final(self)),
    {
        if self.ist_belegt() {
            self.phase_setzen(appid, Phase::Fehler, Prozent::Null, "SteamCMD endete ohne Ergebnis");
        }
    }
}

/// One download at a time: a slot that a reservation left is taken, so every
/// further reservation is refused (and leaves the slot as it was) until the
/// download reaches an end state or is wound up.
pub proof fn nur_ein_download(z: DownloadZustand, appid: Seq<char>)
    requires
        reserviert(z, appid),
    ensures
        belegt(z),
{
}


// ---------------------------------------------------------------- update paths

/// Where an update puts the manifest: the client's copy next to the games
/// (`<steamapps>/appmanifest_<appid>.acf`, `<steamapps>` two levels above the
/// game folder) and SteamCMD's copy under the game folder.
#[derive(Debug)]
pub struct UpdatePfade {
    pub client_manifest: String,
    pub ziel_steamapps: String,
    pub ziel_manifest: String,
}

/// The manifest paths of an update of `appid` whose game folder is `pfad`
/// (`<steamapps>/common/<installdir>`); an error when `pfad` has no folder
/// two levels up.
pub fn update_pfade(pfad: &str, appid: &str) -> (r: Result<UpdatePfade, Fehler>)
    ensures
        match eltern(pfad@) {
            Some(common) => match eltern(common) {
                Some(steamapps) => r matches Ok(p) && {
                    let name = "appmanifest_"@ + appid@ + ".acf"@;
                    &&& p.client_manifest@ == pfad_verbinden(steamapps, name)
                    &&& p.ziel_steamapps@ == pfad_verbinden(pfad@, "steamapps"@)
                    &&& p.ziel_manifest@ == pfad_verbinden(pfad_verbinden(pfad@, "steamapps"@), name)
                },
                None => r matches Err(f) && meldung_von(f) == "Pfad liegt nicht in steamapps/common/..."@,
            },
            None => r matches Err(f) && meldung_von(f) == "Pfad liegt nicht in steamapps/common/..."@,
        },
{
    let steamapps = match eltern_exec(pfad) {
        Some(common) => eltern_exec(common.as_str()),
        None => None,
    };
    let steamapps = match steamapps {
        Some(s) => s,
        None => return Err(fehler(String::from_str("Pfad liegt nicht in steamapps/common/..."))),
    };
    let name = manifest_dateiname(appid);
    let client_manifest = pfad_verbinden_exec(steamapps.as_str(), name.as_str());
    let ziel_steamapps = pfad_verbinden_exec(pfad, "steamapps");
    let ziel_manifest = pfad_verbinden_exec(ziel_steamapps.as_str(), name.as_str());
    Ok(UpdatePfade { client_manifest, ziel_steamapps, ziel_manifest })
}


/// The checks before an update, in their order: SteamCMD must be installed
/// (`programm_gefunden`), the user logged in to it (`angemeldet`), and the
/// game folder must lie in `steamapps/common/...`; the first check that fails
/// gives the error, else the manifest paths of the update.
pub fn update_vorbereiten(programm_gefunden: bool, angemeldet: bool, pfad: &str, appid: &str) -> (r: Result<
    UpdatePfade,
    Fehler,
>)
    ensures
        !programm_gefunden ==> (r matches Err(f) && meldung_von(f)
            == "SteamCMD nicht gefunden (brew install --cask steamcmd)"@),
        programm_gefunden && !angemeldet ==> (r matches Err(f) && meldung_von(f)
            == "SteamCMD: nicht angemeldet – erst unten rechts anmelden"@),
        programm_gefunden && angemeldet ==> match eltern(pfad@) {
            Some(common) => match eltern(common) {
                Some(steamapps) => r matches Ok(p) && {
                    let name = "appmanifest_"@ + appid@ + ".acf"@;
                    &&& p.client_manifest@ == pfad_verbinden(steamapps, name)
                    &&& p.ziel_steamapps@ == pfad_verbinden(pfad@, "steamapps"@)
                    &&& p.ziel_manifest@ == pfad_verbinden(pfad_verbinden(pfad@, "steamapps"@), name)
                },
                None => r matches Err(f) && meldung_von(f) == "Pfad liegt nicht in steamapps/common/..."@,
            },
            None => r matches Err(f) && meldung_von(f) == "Pfad liegt nicht in steamapps/common/..."@,
        },
{
    if !programm_gefunden {
        return Err(fehler(String::from_str("SteamCMD nicht gefunden (brew install --cask steamcmd)")));
    }
    if !angemeldet {
        return Err(fehler(String::from_str("SteamCMD: nicht angemeldet – erst unten rechts anmelden")));
    }
    update_pfade(pfad, appid)
}

/// SteamCMD's own root (`STEAMROOT` of its wrapper script), where it keeps
/// `config/loginusers.vdf`: the `MacOS` folder next to the folder two levels
/// above the program the Homebrew link points to.
pub fn steamcmd_wurzel_aus(programm: &str) -> (r: Option<String>)
    ensures
        crate::text::sicht(r) == (match eltern(programm@) {
            Some(a) => match eltern(a) {
                Some(b) => Some(pfad_verbinden(b, "MacOS"@)),
                None => None,
            },
            None => None,
        }),
{
    match eltern_exec(programm) {
        Some(a) => match eltern_exec(a.as_str()) {
            Some(b) => Some(pfad_verbinden_exec(b.as_str(), "MacOS")),
            None => None,
        },
        None => None,
    }
}

// ---------------------------------------------------------------- LastPlayed round trip

/// No `'\n'` in a text.
pub open spec fn ohne_zeilenumbruch(l: Seq<char>) -> bool {
    forall|k: int| 0 <= k < l.len() ==> l[k] != '\n'
}

proof fn lemma_zeilen_ohne_umbruch(t: Seq<char>)
    ensures
        forall|i: int| 0 <= i < zeilen(t).len() ==> ohne_zeilenumbruch(#[trigger] zeilen(t)[i]),
    decreases t.len(),
{
    if t.len() > 0 {
        crate::text::lemma_finde_grenzen(t, '\n');
        match finde(t, '\n') {
            Some(i) => {
                lemma_zeilen_ohne_umbruch(t.skip(i + 1));
                let l = crate::text::ohne_wagenruecklauf(t.take(i));
                assert(ohne_zeilenumbruch(l));
                assert forall|j: int| 0 <= j < zeilen(t).len() implies ohne_zeilenumbruch(#[trigger] zeilen(t)[j]) by {
                    if j > 0 {
                        assert(zeilen(t)[j] == zeilen(t.skip(i + 1))[j - 1]);
                    }
                }
            },
            None => {},
        }
    }
}

proof fn lemma_mit_zeilenenden_vorne(ls: Seq<Seq<char>>)
    requires
        ls.len() > 0,
    ensures
        mit_zeilenenden(ls) == ls[0] + seq!['\n'] + mit_zeilenenden(ls.drop_first()),
    decreases ls.len(),
{
    if ls.len() == 1 {
        assert(ls.drop_first().len() == 0);
        assert(ls.drop_last().len() == 0);
        assert(mit_zeilenenden(ls.drop_last()) =~= Seq::<char>::empty());
        assert(mit_zeilenenden(ls.drop_first()) =~= Seq::<char>::empty());
        assert(ls.last() == ls[0]);
        assert(mit_zeilenenden(ls) =~= ls[0] + seq!['\n'] + mit_zeilenenden(ls.drop_first()));
    } else {
        lemma_mit_zeilenenden_vorne(ls.drop_last());
        assert(ls.drop_last().drop_first() =~= ls.drop_first().drop_last());
        assert(ls.drop_first().last() == ls.last());
        assert(mit_zeilenenden(ls) =~= ls[0] + seq!['\n'] + mit_zeilenenden(ls.drop_first()));
    }
}

proof fn lemma_zeilen_mit_zeilenenden(ls: Seq<Seq<char>>)
    requires
        forall|i: int| 0 <= i < ls.len() ==> ohne_zeilenumbruch(#[trigger] ls[i]),
    ensures
        zeilen(mit_zeilenenden(ls)) == Seq::new(ls.len(), |i: int| crate::text::ohne_wagenruecklauf(ls[i])),
    decreases ls.len(),
{
    if ls.len() == 0 {
        assert(zeilen(mit_zeilenenden(ls)) =~= Seq::new(ls.len(), |i: int| crate::text::ohne_wagenruecklauf(ls[i])));
    } else {
        lemma_mit_zeilenenden_vorne(ls);
        let l = ls[0];
        let rest = mit_zeilenenden(ls.drop_first());
        let t = l + seq!['\n'] + rest;
        assert(ohne_zeilenumbruch(l));
        crate::text::lemma_finde_verschoben(t, '\n', l.len() as int);
        assert(t.skip(l.len() as int)[0] == '\n');
        assert(t.take(l.len() as int) =~= l);
        assert(t.skip(l.len() as int + 1) =~= rest);
        assert forall|i: int| 0 <= i < ls.drop_first().len() implies ohne_zeilenumbruch(#[trigger] ls.drop_first()[i]) by {
            assert(ls.drop_first()[i] == ls[i + 1]);
        }
        lemma_zeilen_mit_zeilenenden(ls.drop_first());
        assert(zeilen(mit_zeilenenden(ls)) =~= Seq::new(ls.len(), |i: int| crate::text::ohne_wagenruecklauf(ls[i])));
    }
}

proof fn lemma_getrimmt_ohne_letzten_leerraum(s: Seq<char>, c: char)
    requires
        crate::text::ist_leerraum(c),
    ensures
        getrimmt(s.push(c)) == getrimmt(s),
    decreases s.len(),
{
    if s.len() == 0 {
        assert(s.push(c).drop_first() =~= s);
        assert(ohne_fuehrenden_leerraum(s.push(c)) == ohne_fuehrenden_leerraum(s));
    } else if crate::text::ist_leerraum(s[0]) {
        assert(s.push(c).drop_first() =~= s.drop_first().push(c));
        lemma_getrimmt_ohne_letzten_leerraum(s.drop_first(), c);
    } else {
        assert(s.push(c).drop_last() =~= s);
    }
}

proof fn lemma_lp_ohne_wagenruecklauf(l: Seq<char>)
    ensures
        lp_wert_zeile(crate::text::ohne_wagenruecklauf(l)) == lp_wert_zeile(l),
        ist_lp_zeile(crate::text::ohne_wagenruecklauf(l)) == ist_lp_zeile(l),
{
    if l.len() > 0 && l.last() == '\r' {
        assert(l.drop_last().push('\r') =~= l);
        lemma_getrimmt_ohne_letzten_leerraum(l.drop_last(), '\r');
    }
}

proof fn lemma_ohne_fuehrende_tabs(tabs: Seq<char>, x: Seq<char>)
    requires
        forall|k: int| 0 <= k < tabs.len() ==> tabs[k] == '\t',
    ensures
        ohne_fuehrenden_leerraum(tabs + x) == ohne_fuehrenden_leerraum(x),
    decreases tabs.len(),
{
    if tabs.len() > 0 {
        assert((tabs + x).drop_first() =~= tabs.drop_first() + x);
        lemma_ohne_fuehrende_tabs(tabs.drop_first(), x);
    } else {
        assert(tabs + x =~= x);
    }
}

proof fn lemma_fuehrende_tabs_sind_tabs(l: Seq<char>)
    ensures
        forall|k: int| 0 <= k < fuehrende_tabs(l).len() ==> fuehrende_tabs(l)[k] == '\t',
        ohne_zeilenumbruch(fuehrende_tabs(l)),
    decreases l.len(),
{
    if l.len() > 0 && l[0] == '\t' {
        lemma_fuehrende_tabs_sind_tabs(l.drop_first());
        assert forall|k: int| 0 <= k < fuehrende_tabs(l).len() implies fuehrende_tabs(l)[k] == '\t' by {
            if k > 0 {
                assert(fuehrende_tabs(l)[k] == fuehrende_tabs(l.drop_first())[k - 1]);
            }
        }
    }
}

proof fn lemma_neue_lp_zeile(l: Seq<char>, w: Seq<char>)
    requires
        ist_lp_zeile(l),
        w.len() > 0,
        forall|k: int| 0 <= k < w.len() ==> w[k] != '"' && w[k] != '\n',
    ensures
        lp_wert_zeile(neue_zeile(l, w)) == Some(w),
        ist_lp_zeile(neue_zeile(l, w)),
        ohne_zeilenumbruch(neue_zeile(l, w)),
{
    reveal_strlit("\"LastPlayed\"\t\t\"");
    reveal_strlit("\"LastPlayed\"");
    reveal_strlit("\"");
    let lp = "\"LastPlayed\""@;
    let tabs = fuehrende_tabs(l);
    lemma_fuehrende_tabs_sind_tabs(l);
    let x = "\"LastPlayed\"\t\t\""@ + w + "\""@;
    assert(neue_zeile(l, w) =~= tabs + x);
    lemma_ohne_fuehrende_tabs(tabs, x);
    assert(x[0] == '"');
    assert(ohne_fuehrenden_leerraum(x) == x);
    assert(x.last() == '"');
    assert(crate::text::ohne_endenden_leerraum(x) == x);
    assert(getrimmt(neue_zeile(l, w)) == x);
    assert(x.subrange(0, lp.len() as int) =~= lp);
    let nach = x.skip(lp.len() as int);
    let innen = seq!['"'] + w + seq!['"'];
    assert(nach =~= seq!['\t', '\t'] + innen);
    lemma_ohne_fuehrende_tabs(seq!['\t', '\t'], innen);
    assert(ohne_fuehrenden_leerraum(innen) == innen);
    assert(innen.last() == '"');
    assert(crate::text::ohne_endenden_leerraum(innen) == innen);
    assert(getrimmt(nach) == innen);
    assert(innen.drop_first() =~= w + seq!['"']);
    assert(ohne_fuehrende_anfuehrungszeichen(w + seq!['"']) == w + seq!['"']);
    assert(ohne_fuehrende_anfuehrungszeichen(innen) == w + seq!['"']);
    crate::text::lemma_finde_verschoben(w + seq!['"'], '"', w.len() as int);
    assert((w + seq!['"']).skip(w.len() as int) =~= seq!['"']);
    assert((w + seq!['"']).take(w.len() as int) =~= w);
    assert forall|k: int| 0 <= k < neue_zeile(l, w).len() implies neue_zeile(l, w)[k] != '\n' by {
        if k >= tabs.len() {
            assert(neue_zeile(l, w)[k] == x[k - tabs.len()]);
        }
    }
}

proof fn lemma_erster_lp_wert_gesetzt(ls: Seq<Seq<char>>, w: Seq<char>)
    requires
        w.len() > 0,
        forall|k: int| 0 <= k < w.len() ==> w[k] != '"' && w[k] != '\n',
    ensures
        erster_lp_wert(Seq::new(ls.len(), |i: int| crate::text::ohne_wagenruecklauf(neue_zeile(ls[i], w)))) == (if exists|i: int|
            0 <= i < ls.len() && #[trigger] ist_lp_zeile(ls[i]) {
            Some(w)
        } else {
            None
        }),
    decreases ls.len(),
{
    let ms = Seq::new(ls.len(), |i: int| crate::text::ohne_wagenruecklauf(neue_zeile(ls[i], w)));
    if ls.len() > 0 {
        let rest = ls.drop_first();
        lemma_erster_lp_wert_gesetzt(rest, w);
        assert(ms.drop_first() =~= Seq::new(rest.len(), |i: int| crate::text::ohne_wagenruecklauf(neue_zeile(rest[i], w))));
        lemma_lp_ohne_wagenruecklauf(neue_zeile(ls[0], w));
        if ist_lp_zeile(ls[0]) {
            lemma_neue_lp_zeile(ls[0], w);
        } else {
            assert(lp_wert_zeile(ls[0]) is None);
            if exists|i: int| 0 <= i < ls.len() && #[trigger] ist_lp_zeile(ls[i]) {
                let i = choose|i: int| 0 <= i < ls.len() && #[trigger] ist_lp_zeile(ls[i]);
                assert(ist_lp_zeile(rest[i - 1]));
            }
            if exists|i: int| 0 <= i < rest.len() && #[trigger] ist_lp_zeile(rest[i]) {
                let i = choose|i: int| 0 <= i < rest.len() && #[trigger] ist_lp_zeile(rest[i]);
                assert(ist_lp_zeile(ls[i + 1]));
            }
        }
    }
}

/// What `last_played_setzen` wrote, `last_played_aus_manifest` reads back: for a
/// non-empty value without quotes or line breaks, the result reads as that value
/// when the manifest had a `LastPlayed` line, and as none when it had none.
pub proof fn last_played_rundlauf(t: Seq<char>, w: Seq<char>)
    requires
        w.len() > 0,
        forall|k: int| 0 <= k < w.len() ==> w[k] != '"' && w[k] != '\n',
    ensures
        erster_lp_wert(zeilen(lp_gesetzt(t, w))) == (if exists|i: int|
            0 <= i < zeilen(t).len() && #[trigger] ist_lp_zeile(zeilen(t)[i]) {
            Some(w)
        } else {
            None
        }),
{
    let ls = zeilen(t);
    lemma_zeilen_ohne_umbruch(t);
    let neu = neue_zeilen(t, w);
    assert forall|i: int| 0 <= i < neu.len() implies ohne_zeilenumbruch(#[trigger] neu[i]) by {
        if ist_lp_zeile(ls[i]) {
            lemma_neue_lp_zeile(ls[i], w);
        } else {
            assert(neu[i] == ls[i]);
        }
    }
    lemma_zeilen_mit_zeilenenden(neu);
    assert(zeilen(lp_gesetzt(t, w)) =~= Seq::new(ls.len(), |i: int| crate::text::ohne_wagenruecklauf(neue_zeile(ls[i], w))));
    lemma_erster_lp_wert_gesetzt(ls, w);
}

/// `c` does not occur in `s`.
pub open spec fn ohne_zeichen(s: Seq<char>, c: char) -> bool {
    forall|k: int| 0 <= k < s.len() ==> s[k] != c
}

proof fn lemma_ohne_zeichen_gekuerzt(s: Seq<char>, c: char)
    requires
        ohne_zeichen(s, c),
    ensures
        ohne_zeichen(ohne_fuehrenden_leerraum(s), c),
        ohne_zeichen(crate::text::ohne_endenden_leerraum(s), c),
        ohne_zeichen(ohne_fuehrende_anfuehrungszeichen(s), c),
    decreases s.len(),
{
    if s.len() > 0 {
        assert(ohne_zeichen(s.drop_first(), c));
        assert(ohne_zeichen(s.drop_last(), c));
        lemma_ohne_zeichen_gekuerzt(s.drop_first(), c);
        lemma_ohne_zeichen_gekuerzt(s.drop_last(), c);
    }
}

proof fn lemma_ohne_anfuehrungszeichen_vorne(s: Seq<char>)
    ensures
        ohne_fuehrende_anfuehrungszeichen(s).len() == 0 || ohne_fuehrende_anfuehrungszeichen(s)[0] != '"',
    decreases s.len(),
{
    if s.len() > 0 && s[0] == '"' {
        lemma_ohne_anfuehrungszeichen_vorne(s.drop_first());
    }
}

/// A `LastPlayed` value is not empty and holds no quote, and no line break
/// when its line has none.
proof fn lemma_lp_wert_ohne(l: Seq<char>, w: Seq<char>)
    requires
        lp_wert_zeile(l) == Some(w),
    ensures
        w.len() > 0,
        ohne_zeichen(w, '"'),
        ohne_zeichen(l, '\n') ==> ohne_zeichen(w, '\n'),
{
    let z = getrimmt(l);
    let r = ohne_fuehrende_anfuehrungszeichen(getrimmt(z.skip("\"LastPlayed\""@.len() as int)));
    crate::text::lemma_finde_grenzen(r, '"');
    lemma_ohne_anfuehrungszeichen_vorne(getrimmt(z.skip("\"LastPlayed\""@.len() as int)));
    let e = finde(r, '"')->0;
    assert(w == r.take(e));
    if ohne_zeichen(l, '\n') {
        lemma_ohne_zeichen_gekuerzt(l, '\n');
        lemma_ohne_zeichen_gekuerzt(ohne_fuehrenden_leerraum(l), '\n');
        let y = z.skip("\"LastPlayed\""@.len() as int);
        assert(ohne_zeichen(y, '\n'));
        lemma_ohne_zeichen_gekuerzt(y, '\n');
        lemma_ohne_zeichen_gekuerzt(ohne_fuehrenden_leerraum(y), '\n');
        lemma_ohne_zeichen_gekuerzt(getrimmt(y), '\n');
        assert(ohne_zeichen(r, '\n'));
    }
}

/// The value that a manifest's lines give `LastPlayed` is not empty and holds
/// no quote and no line break.
proof fn lemma_erster_lp_wert_ohne(zs: Seq<Seq<char>>, w: Seq<char>)
    requires
        erster_lp_wert(zs) == Some(w),
        forall|i: int| 0 <= i < zs.len() ==> ohne_zeilenumbruch(#[trigger] zs[i]),
    ensures
        w.len() > 0,
        ohne_zeichen(w, '"'),
        ohne_zeichen(w, '\n'),
    decreases zs.len(),
{
    assert(ohne_zeilenumbruch(zs[0]));
    match lp_wert_zeile(zs[0]) {
        Some(v) => {
            lemma_lp_wert_ohne(zs[0], v);
        },
        None => {
            assert forall|i: int| 0 <= i < zs.drop_first().len() implies ohne_zeilenumbruch(
                #[trigger] zs.drop_first()[i],
            ) by {
                assert(zs.drop_first()[i] == zs[i + 1]);
            }
            lemma_erster_lp_wert_ohne(zs.drop_first(), w);
        },
    }
}

/// The `LastPlayed` value that an update saves is the one the manifest holds
/// after cleanup: whatever SteamCMD left in the manifest's `LastPlayed` line,
/// the text that cleanup leaves (set to the saved value, or as it was when it
/// already held it) reads as the saved value.
pub proof fn gesicherter_wert_kommt_zurueck(vorher: Seq<char>, nachher: Seq<char>)
    requires
        erster_lp_wert(zeilen(vorher)) is Some,
        exists|i: int| 0 <= i < zeilen(nachher).len() && #[trigger] ist_lp_zeile(zeilen(nachher)[i]),
    ensures
        ({
            let w = erster_lp_wert(zeilen(vorher))->0;
            let danach = if erster_lp_wert(zeilen(nachher)) == Some(w) {
                nachher
            } else {
                lp_gesetzt(nachher, w)
            };
            erster_lp_wert(zeilen(danach)) == Some(w)
        }),
{
    let w = erster_lp_wert(zeilen(vorher))->0;
    lemma_zeilen_ohne_umbruch(vorher);
    lemma_erster_lp_wert_ohne(zeilen(vorher), w);
    if erster_lp_wert(zeilen(nachher)) != Some(w) {
        last_played_rundlauf(nachher, w);
    }
}

/// Setting `LastPlayed` keeps the manifest's format: its lines stay, in order, and
/// only the `LastPlayed` lines change (a `'\r'` before a line's end aside).
pub proof fn last_played_setzen_erhaelt_zeilen(t: Seq<char>, w: Seq<char>)
    requires
        forall|k: int| 0 <= k < w.len() ==> w[k] != '\n',
    ensures
        zeilen(lp_gesetzt(t, w)).len() == zeilen(t).len(),
        forall|i: int| 0 <= i < zeilen(t).len() && !ist_lp_zeile(zeilen(t)[i]) ==>
            #[trigger] zeilen(lp_gesetzt(t, w))[i] == crate::text::ohne_wagenruecklauf(zeilen(t)[i]),
{
    let ls = zeilen(t);
    lemma_zeilen_ohne_umbruch(t);
    let neu = neue_zeilen(t, w);
    assert forall|i: int| 0 <= i < neu.len() implies ohne_zeilenumbruch(#[trigger] neu[i]) by {
        if ist_lp_zeile(ls[i]) {
            reveal_strlit("\"LastPlayed\"\t\t\"");
            reveal_strlit("\"");
            lemma_fuehrende_tabs_sind_tabs(ls[i]);
            let tabs = fuehrende_tabs(ls[i]);
            let x = "\"LastPlayed\"\t\t\""@ + w + "\""@;
            assert(neu[i] =~= tabs + x);
            assert forall|k: int| 0 <= k < neu[i].len() implies neu[i][k] != '\n' by {
                if k >= tabs.len() {
                    assert(neu[i][k] == x[k - tabs.len()]);
                }
            }
        } else {
            assert(neu[i] == ls[i]);
        }
    }
    lemma_zeilen_mit_zeilenenden(neu);
}

} // verus!
