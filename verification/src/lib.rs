//! A unified game library: reads the libraries of Steam and GOG and
//! joins them into one list. The crate reads and decides; the files,
//! processes and network it needs are handed to it as plain values.
use vstd::prelude::*;
use crate::text::{kleinschreibung, kleinbuchstaben, zeichen_von, lex_kleiner, lemma_lex_asymmetrisch, lemma_lex_irreflexiv};
use crate::ordnung::{stabil_geordnet, schluessel_sicht, stabile_reihenfolge, vor};

pub mod text;
pub mod pfad;
pub mod steam;
pub mod ordnung;
pub mod bridge;
pub mod steamcmd;
pub mod gog;
pub mod heroic;
pub mod oberflaeche;

pub use bridge::{app_version, Fehler};

verus! {

/// A game, whatever its source.
#[derive(Debug, Clone)]
pub struct Spiel {
    /// Source id: Steam app id or GOG app name.
    pub id: String,
    /// Title shown.
    pub titel: String,
    /// Source: "Steam" or "GOG".
    pub quelle: String,
    /// Install path (for Steam, the game's folder).
    pub pfad: String,
    /// Local cover (absolute path), empty when none was found.
    pub cover: String,
    /// Cover URL (GOG), empty when none.
    pub cover_url: String,
    /// Last played as a Unix timestamp (0 = unknown).
    pub zuletzt_gespielt: u64,
    /// Installed size in bytes (0 = unknown).
    pub groesse_bytes: u64,
}

impl Spiel {
    /// A field-by-field copy.
    pub fn kopie(&self) -> (r: Spiel)
        ensures
            r == *self,
    {
        Spiel {
            id: self.id.clone(),
            titel: self.titel.clone(),
            quelle: self.quelle.clone(),
            pfad: self.pfad.clone(),
            cover: self.cover.clone(),
            cover_url: self.cover_url.clone(),
            zuletzt_gespielt: self.zuletzt_gespielt,
            groesse_bytes: self.groesse_bytes,
        }
    }
}


/// The games a source delivered; none when it failed.
pub open spec fn quelle_oder_leer(q: Option<Vec<Spiel>>) -> Seq<Spiel> {
    match q {
        Some(v) => v@,
        None => Seq::empty(),
    }
}

/// The sort key of each game: its title in lowercase.
pub open spec fn titel_schluessel(s: Seq<Spiel>) -> Seq<Seq<char>> {
    Seq::new(s.len(), |i: int| kleinschreibung(s[i].titel@))
}

/// `ergebnis` lists `eingabe` in the order `p`, a stable sort by lowercase title.
pub open spec fn nach_titel_sortiert_mit(eingabe: Seq<Spiel>, ergebnis: Seq<Spiel>, p: Seq<usize>) -> bool {
    &&& stabil_geordnet(titel_schluessel(eingabe), p)
    &&& ergebnis.len() == p.len()
    &&& forall|i: int| 0 <= i < p.len() ==> ergebnis[i] == eingabe[#[trigger] p[i] as int]
}

/// `ergebnis` is `eingabe` stably sorted by lowercase title.
pub open spec fn nach_titel_sortiert(eingabe: Seq<Spiel>, ergebnis: Seq<Spiel>) -> bool {
    exists|p: Seq<usize>| nach_titel_sortiert_mit(eingabe, ergebnis, p)
}

/// Joins the games of all sources into one list, alphabetically by title
/// regardless of case, keeping the source order among equal titles. The
/// sources are independent: one that failed (`None`) takes nothing from the
/// others.
pub fn sammele_spiele(steam: Option<Vec<Spiel>>, gog: Option<Vec<Spiel>>) -> (r: Vec<Spiel>)
    ensures
        nach_titel_sortiert(quelle_oder_leer(steam) + quelle_oder_leer(gog), r@),
{
    let ghost eingabe = quelle_oder_leer(steam) + quelle_oder_leer(gog);
    let mut spiele: Vec<Spiel> = Vec::new();
    if let Some(mut s) = steam {
        spiele.append(&mut s);
    }
    if let Some(mut g) = gog {
        spiele.append(&mut g);
    }
    assert(spiele@ =~= eingabe);
    let mut keys: Vec<Vec<char>> = Vec::new();
    let mut i: usize = 0;
    while i < spiele.len()
        invariant
            i <= spiele.len(),
            keys.len() == i,
            forall|j: int| 0 <= j < i ==> (#[trigger] keys@[j])@ == kleinschreibung(spiele@[j].titel@),
        decreases spiele.len() - i,
    {
        let klein = kleinbuchstaben(spiele[i].titel.as_str());
        keys.push(zeichen_von(klein.as_str()));
        i += 1;
    }
    assert(schluessel_sicht(keys@) =~= titel_schluessel(spiele@));
    let p = stabile_reihenfolge(&keys);
    let mut r: Vec<Spiel> = Vec::new();
    let mut j: usize = 0;
    while j < p.len()
        invariant
            j <= p.len(),
            stabil_geordnet(titel_schluessel(spiele@), p@),
            r.len() == j,
            forall|m: int| 0 <= m < j ==> r@[m] == spiele@[#[trigger] p@[m] as int],
        decreases p.len() - j,
    {
        r.push(spiele[p[j]].kopie());
        j += 1;
    }
    assert(nach_titel_sortiert_mit(eingabe, r@, p@));
    r
}

/// Joining loses and invents nothing: every game of a source that delivered
/// stands in the result, and every game of the result came from a source.
pub proof fn sammeln_ist_vollstaendig(eingabe: Seq<Spiel>, ergebnis: Seq<Spiel>)
    requires
        nach_titel_sortiert(eingabe, ergebnis),
    ensures
        ergebnis.len() == eingabe.len(),
        forall|i: int| 0 <= i < eingabe.len() ==> ergebnis.contains(#[trigger] eingabe[i]),
        forall|j: int| 0 <= j < ergebnis.len() ==> eingabe.contains(#[trigger] ergebnis[j]),
{
    let p = choose|p: Seq<usize>| nach_titel_sortiert_mit(eingabe, ergebnis, p);
    assert forall|i: int| 0 <= i < eingabe.len() implies ergebnis.contains(#[trigger] eingabe[i]) by {
        assert(crate::ordnung::kommt_vor(p, i));
        let j = choose|a: int| 0 <= a < p.len() && #[trigger] p[a] == i;
        assert(ergebnis[j] == eingabe[p[j] as int]);
    }
    assert forall|j: int| 0 <= j < ergebnis.len() implies eingabe.contains(#[trigger] ergebnis[j]) by {
        assert(ergebnis[j] == eingabe[p[j] as int]);
    }
}

/// The library stands alphabetically: along the result, no lowercase title
/// comes before the one in front of it, and games with the same lowercase
/// title keep the order of their sources.
pub proof fn sammeln_ist_alphabetisch(eingabe: Seq<Spiel>, ergebnis: Seq<Spiel>)
    requires
        nach_titel_sortiert(eingabe, ergebnis),
    ensures
        forall|i: int, j: int| 0 <= i < j < ergebnis.len() ==>
            !lex_kleiner(kleinschreibung(#[trigger] ergebnis[j].titel@), kleinschreibung(#[trigger] ergebnis[i].titel@)),
        exists|p: Seq<usize>| nach_titel_sortiert_mit(eingabe, ergebnis, p) && forall|i: int, j: int|
            0 <= i < j < ergebnis.len() && kleinschreibung(ergebnis[i].titel@) == kleinschreibung(ergebnis[j].titel@)
                ==> #[trigger] p[i] < #[trigger] p[j],
{
    let p = choose|p: Seq<usize>| nach_titel_sortiert_mit(eingabe, ergebnis, p);
    let k = titel_schluessel(eingabe);
    assert forall|i: int, j: int| 0 <= i < j < ergebnis.len() implies
        !lex_kleiner(kleinschreibung(#[trigger] ergebnis[j].titel@), kleinschreibung(#[trigger] ergebnis[i].titel@)) by {
        assert(vor(k, p[i] as int, p[j] as int));
        assert(ergebnis[i] == eingabe[p[i] as int]);
        assert(ergebnis[j] == eingabe[p[j] as int]);
        lemma_lex_asymmetrisch(k[p[i] as int], k[p[j] as int]);
        lemma_lex_irreflexiv(k[p[i] as int]);
    }
    assert forall|i: int, j: int|
        0 <= i < j < ergebnis.len() && kleinschreibung(ergebnis[i].titel@) == kleinschreibung(ergebnis[j].titel@)
            implies #[trigger] p[i] < #[trigger] p[j] by {
        assert(vor(k, p[i] as int, p[j] as int));
        assert(ergebnis[i] == eingabe[p[i] as int]);
        assert(ergebnis[j] == eingabe[p[j] as int]);
        lemma_lex_irreflexiv(k[p[i] as int]);
    }
}

} // verus!
