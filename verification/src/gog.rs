//! GOG: games as folders under one root (`Name.app`, or a folder holding a
//! `.app` one or two levels down), with titles and covers from a copy of the
//! GOG library.
use vstd::prelude::*;
use crate::Spiel;
use crate::text::{beginnt_mit, endet_mit, ohne_app_endung, zeichen_von, string_aus, ohne_app_ende, beginnt_mit_text, endet_mit_text};

verus! {

/// A game of the GOG library copy (`gog_library.json`).
#[derive(Debug, Clone)]
pub struct GogSpiel {
    pub app_name: String,
    pub title: String,
    pub folder_name: String,
    /// Portrait cover (gamesdb), fits the 2:3 grid.
    pub art_square: String,
    /// Landscape banner, only a fallback.
    pub art_cover: String,
}

/// The folder name of a game: `folder_name`, else `title`, else `app_name`,
/// without trailing `.app`.
pub open spec fn ordnername_spec(g: GogSpiel) -> Seq<char> {
    ohne_app_endung(
        if g.folder_name@.len() > 0 {
            g.folder_name@
        } else if g.title@.len() > 0 {
            g.title@
        } else {
            g.app_name@
        },
    )
}

/// The cover URL of a game: `art_square` if it is a web address, else
/// `art_cover` if that is, else none.
pub open spec fn cover_url_spec(g: GogSpiel) -> Seq<char> {
    if beginnt_mit(g.art_square@, "http"@) {
        g.art_square@
    } else if beginnt_mit(g.art_cover@, "http"@) {
        g.art_cover@
    } else {
        Seq::empty()
    }
}

/// A text without its trailing `.app`.
pub fn ohne_app(s: &str) -> (r: String)
    ensures
        r@ == ohne_app_endung(s@),
{
    let v = zeichen_von(s);
    let j = ohne_app_ende(&v, 0, v.len());
    assert(v@.subrange(0, v.len() as int) =~= v@);
    string_aus(&v, 0, j)
}

impl GogSpiel {
    /// What the game's folder on disk is called.
    pub fn ordnername(&self) -> (r: String)
        ensures
            r@ == ordnername_spec(*self),
            self.folder_name@.len() > 0 ==> r@ == ohne_app_endung(self.folder_name@),
            self.folder_name@.len() == 0 && self.title@.len() > 0 ==> r@ == ohne_app_endung(self.title@),
            self.folder_name@.len() == 0 && self.title@.len() == 0 ==> r@ == ohne_app_endung(self.app_name@),
    {
        let name = if !self.folder_name.as_str().is_empty() {
            self.folder_name.as_str()
        } else if !self.title.as_str().is_empty() {
            self.title.as_str()
        } else {
            self.app_name.as_str()
        };
        ohne_app(name)
    }
}

/// The folder of a game is the one GOG named: a non-empty `folder_name`
/// decides (without trailing `.app`), whatever the title says; only without
/// it does the title name the folder, and only without both the app name.
pub proof fn ordner_kommt_vor_titel(g: GogSpiel)
    ensures
        g.folder_name@.len() > 0 ==> ordnername_spec(g) == ohne_app_endung(g.folder_name@),
        g.folder_name@.len() == 0 && g.title@.len() > 0 ==> ordnername_spec(g) == ohne_app_endung(g.title@),
        g.folder_name@.len() == 0 && g.title@.len() == 0 ==> ordnername_spec(g) == ohne_app_endung(g.app_name@),
{
}

/// One entry of a map from text keys to a title and a cover URL.
#[derive(Debug)]
pub struct MetaEintrag {
    pub schluessel: String,
    pub titel: String,
    pub url: String,
}

/// Titles and cover URLs by key (a folder name, an app name). A later
/// entry for a key replaces an earlier one.
#[derive(Debug)]
pub struct Metadaten {
    eintraege: Vec<MetaEintrag>,
}

/// The map that a list of entries stands for: the last entry of a key wins.
pub open spec fn eintraege_sicht(es: Seq<MetaEintrag>) -> Map<Seq<char>, (Seq<char>, Seq<char>)>
    decreases es.len(),
{
    if es.len() == 0 {
        Map::empty()
    } else {
        eintraege_sicht(es.drop_last()).insert(es.last().schluessel@, (es.last().titel@, es.last().url@))
    }
}

impl View for Metadaten {
    type V = Map<Seq<char>, (Seq<char>, Seq<char>)>;

    closed spec fn view(&self) -> Map<Seq<char>, (Seq<char>, Seq<char>)> {
        eintraege_sicht(self.eintraege@)
    }
}

impl Metadaten {
    /// An empty map.
    pub fn new() -> (m: Metadaten)
        ensures
            m@ == Map::<Seq<char>, (Seq<char>, Seq<char>)>::empty(),
    {
        Metadaten { eintraege: Vec::new() }
    }

    /// Sets the title and cover URL of a key.
    pub fn insert(&mut self, schluessel: String, wert: (String, String))
        ensures
            final(self)@ == old(self)@.insert(schluessel@, (wert.0@, wert.1@)),
    {
        let (titel, url) = wert;
        self.eintraege.push(MetaEintrag { schluessel, titel, url });
        assert(self.eintraege@.drop_last() =~= old(self).eintraege@);
    }

    /// The title and cover URL of a key, if it has any.
    pub fn get(&self, schluessel: &str) -> (r: Option<(String, String)>)
        ensures
            r is Some <==> self@.contains_key(schluessel@),
            r matches Some(w) ==> self@[schluessel@] == (w.0@, w.1@),
    {
        let k = String::from_str(schluessel);
        let mut j = self.eintraege.len();
        assert(self.eintraege@.take(j as int) =~= self.eintraege@);
        while j > 0
            invariant
                j <= self.eintraege.len(),
                k@ == schluessel@,
                eintraege_sicht(self.eintraege@.take(j as int)).contains_key(k@) == self@.contains_key(k@),
                eintraege_sicht(self.eintraege@.take(j as int)).contains_key(k@) ==> eintraege_sicht(
                    self.eintraege@.take(j as int),
                )[k@] == self@[k@],
            decreases j,
        {
            let e = &self.eintraege[j - 1];
            assert(self.eintraege@.take(j as int).drop_last() =~= self.eintraege@.take(j - 1));
            assert(self.eintraege@.take(j as int).last() == self.eintraege@[j - 1]);
            if e.schluessel == k {
                return Some((e.titel.clone(), e.url.clone()));
            }
            j -= 1;
        }
        assert(self.eintraege@.take(0) =~= Seq::<MetaEintrag>::empty());
        None
    }
}

/// What one reads of a key is what was last set for it; the other keys keep
/// what they had.
pub proof fn metadaten_lesen_nach_schreiben(
    vorher: Map<Seq<char>, (Seq<char>, Seq<char>)>,
    schluessel: Seq<char>,
    wert: (Seq<char>, Seq<char>),
    anderer: Seq<char>,
)
    requires
        anderer != schluessel,
    ensures
        vorher.insert(schluessel, wert).contains_key(schluessel),
        vorher.insert(schluessel, wert)[schluessel] == wert,
        vorher.insert(schluessel, wert).contains_key(anderer) == vorher.contains_key(anderer),
        vorher.contains_key(anderer) ==> vorher.insert(schluessel, wert)[anderer] == vorher[anderer],
{
}

/// Titles and covers by folder name, read from the games of the library copy
/// in order (a later game with the same folder name wins).
pub open spec fn metadaten_spec(gs: Seq<GogSpiel>) -> Map<Seq<char>, (Seq<char>, Seq<char>)>
    decreases gs.len(),
{
    if gs.len() == 0 {
        Map::empty()
    } else {
        metadaten_spec(gs.drop_last()).insert(
            ordnername_spec(gs.last()),
            (gs.last().title@, cover_url_spec(gs.last())),
        )
    }
}

/// Every game of the library copy has its title and cover under the folder
/// GOG named for it: with a non-empty `folder_name`, under that name without
/// trailing `.app`; and when it is the last game of that folder, they are its
/// own title and cover URL.
pub proof fn metadaten_unter_ordnername(gs: Seq<GogSpiel>, i: int)
    requires
        0 <= i < gs.len(),
        gs[i].folder_name@.len() > 0,
    ensures
        metadaten_spec(gs).contains_key(ohne_app_endung(gs[i].folder_name@)),
        (forall|j: int| i < j < gs.len() ==> ordnername_spec(#[trigger] gs[j]) != ohne_app_endung(gs[i].folder_name@))
            ==> metadaten_spec(gs)[ohne_app_endung(gs[i].folder_name@)] == (gs[i].title@, cover_url_spec(gs[i])),
    decreases gs.len(),
{
    ordner_kommt_vor_titel(gs[i]);
    if i < gs.len() - 1 {
        metadaten_unter_ordnername(gs.drop_last(), i);
        assert(gs.drop_last()[i] == gs[i]);
        if forall|j: int| i < j < gs.len() ==> ordnername_spec(#[trigger] gs[j]) != ohne_app_endung(gs[i].folder_name@) {
            assert(ordnername_spec(gs[gs.len() - 1]) != ohne_app_endung(gs[i].folder_name@));
            assert forall|j: int| i < j < gs.drop_last().len() implies ordnername_spec(#[trigger] gs.drop_last()[j])
                != ohne_app_endung(gs[i].folder_name@) by {
                assert(gs.drop_last()[j] == gs[j]);
            }
        }
    }
}

/// Title and cover by folder name from the games of the library copy.
pub fn metadaten_aus_bibliothek(games: &Vec<GogSpiel>) -> (m: Metadaten)
    ensures
        m@ == metadaten_spec(games@),
{
    let mut m = Metadaten::new();
    let mut i: usize = 0;
    while i < games.len()
        invariant
            i <= games.len(),
            m@ == metadaten_spec(games@.take(i as int)),
        decreases games.len() - i,
    {
        let g = &games[i];
        let ordner = g.ordnername();
        let url = if beginnt_mit_text(g.art_square.as_str(), "http") {
            g.art_square.clone()
        } else if beginnt_mit_text(g.art_cover.as_str(), "http") {
            g.art_cover.clone()
        } else {
            String::new()
        };
        m.insert(ordner, (g.title.clone(), url));
        assert(games@.take(i + 1).drop_last() =~= games@.take(i as int));
        i += 1;
    }
    assert(games@.take(games.len() as int) =~= games@);
    m
}

/// An entry of a game folder: its name, whether it is a folder, and the
/// names of what it holds (empty when it is no folder or cannot be read).
#[derive(Debug, Clone)]
pub struct OrdnerEintrag {
    pub name: String,
    pub ist_verzeichnis: bool,
    pub unter_namen: Vec<String>,
}

/// An entry is a `.app`, or a folder with a `.app` in it (one level deeper,
/// as `Cyberpunk 2077/Cyberpunk 2077/Cyberpunk2077.app`).
pub open spec fn zeigt_app(e: OrdnerEintrag) -> bool {
    endet_mit(e.name@, ".app"@) || (e.ist_verzeichnis && exists|k: int|
        0 <= k < e.unter_namen.len() && endet_mit(#[trigger] e.unter_namen@[k]@, ".app"@))
}

/// Whether a folder, given by its entries, holds a `.app` or a game
/// subfolder with one.
pub fn ordner_hat_app_drin(eintraege: &Vec<OrdnerEintrag>) -> (b: bool)
    ensures
        b == exists|i: int| 0 <= i < eintraege.len() && zeigt_app(#[trigger] eintraege@[i]),
{
    let mut i: usize = 0;
    while i < eintraege.len()
        invariant
            i <= eintraege.len(),
            forall|j: int| 0 <= j < i ==> !zeigt_app(#[trigger] eintraege@[j]),
        decreases eintraege.len() - i,
    {
        let e = &eintraege[i];
        if endet_mit_text(e.name.as_str(), ".app") {
            return true;
        }
        if e.ist_verzeichnis {
            let mut k: usize = 0;
            while k < e.unter_namen.len()
                invariant
                    k <= e.unter_namen.len(),
                    i < eintraege.len(),
                    *e == eintraege@[i as int],
                    e.ist_verzeichnis,
                    forall|m: int| 0 <= m < k ==> !endet_mit(#[trigger] e.unter_namen@[m]@, ".app"@),
                decreases e.unter_namen.len() - k,
            {
                if endet_mit_text(e.unter_namen[k].as_str(), ".app") {
                    assert(endet_mit(e.unter_namen@[k as int]@, ".app"@));
                    assert(zeigt_app(eintraege@[i as int]));
                    return true;
                }
                k += 1;
            }
        }
        i += 1;
    }
    false
}

/// An entry of the GOG root is a game: a folder that is a `.app` or holds one.
pub fn ist_gog_spiel(name: &str, ist_verzeichnis: bool, hat_app_drin: bool) -> (b: bool)
    ensures
        b == (ist_verzeichnis && (endet_mit(name@, ".app"@) || hat_app_drin)),
{
    ist_verzeichnis && (endet_mit_text(name, ".app") || hat_app_drin)
}

/// The game of a GOG folder: its key is the folder name without `.app`;
/// title and cover come from the library copy, the key standing in for a
/// missing or empty title.
pub fn gog_spiel(name: &str, pfad: &str, meta: &Metadaten, groesse_bytes: u64) -> (s: Spiel)
    ensures
        ({
            let k = ohne_app_endung(name@);
            let (titel, url) = if meta@.contains_key(k) {
                meta@[k]
            } else {
                (k, Seq::<char>::empty())
            };
            &&& s.id@ == k
            &&& s.titel@ == (if titel.len() == 0 {
                k
            } else {
                titel
            })
            &&& s.quelle@ == "GOG"@
            &&& s.pfad@ == pfad@
            &&& s.cover@ == Seq::<char>::empty()
            &&& s.cover_url@ == url
            &&& s.zuletzt_gespielt == 0
            &&& s.groesse_bytes == groesse_bytes
        }),
{
    let schluessel = ohne_app(name);
    let (titel, cover_url) = match meta.get(schluessel.as_str()) {
        Some(w) => w,
        None => (schluessel.clone(), String::new()),
    };
    let titel = if titel.as_str().is_empty() {
        schluessel.clone()
    } else {
        titel
    };
    Spiel {
        id: schluessel,
        titel,
        quelle: String::from_str("GOG"),
        pfad: String::from_str(pfad),
        cover: String::new(),
        cover_url,
        zuletzt_gespielt: 0,
        groesse_bytes,
    }
}

// ---------------------------------------------------------------- folder size

/// What a game folder holds, as its size is taken: a file with its length, a
/// folder with what it holds, or anything else (a symbolic link, an entry
/// whose metadata cannot be read), which counts nothing.
#[derive(Debug)]
pub enum Inhalt {
    Datei(u64),
    Ordner(Vec<Inhalt>),
    Sonstiges,
}

/// The size of what a folder holds: the lengths of all files in it and in the
/// folders under it.
pub open spec fn groesse_von(es: Seq<Inhalt>) -> int
    decreases es,
{
    if es.len() == 0 {
        0
    } else {
        let letzter = es[es.len() - 1];
        groesse_von(es.drop_last()) + match letzter {
            Inhalt::Datei(n) => n as int,
            Inhalt::Ordner(v) => {
                proof {
                    assert(decreases_to!(es => letzter));
                }
                groesse_von(v@)
            },
            Inhalt::Sonstiges => 0,
        }
    }
}

proof fn lemma_groesse_nicht_negativ(es: Seq<Inhalt>)
    ensures
        groesse_von(es) >= 0,
    decreases es,
{
    if es.len() > 0 {
        lemma_groesse_nicht_negativ(es.drop_last());
        let letzter = es[es.len() - 1];
        if let Inhalt::Ordner(v) = letzter {
            assert(decreases_to!(es => letzter));
            lemma_groesse_nicht_negativ(v@);
        }
    }
}

proof fn lemma_groesse_praefix(es: Seq<Inhalt>, i: int)
    requires
        0 <= i <= es.len(),
    ensures
        groesse_von(es.take(i)) <= groesse_von(es),
    decreases es.len() - i,
{
    if i < es.len() {
        lemma_groesse_praefix(es, i + 1);
        let t = es.take(i + 1);
        assert(t.drop_last() =~= es.take(i));
        if let Inhalt::Ordner(v) = t[t.len() - 1] {
            lemma_groesse_nicht_negativ(v@);
        }
    } else {
        assert(es.take(i) =~= es);
    }
}

/// The size of a game folder in bytes, from what it holds: the sum of the
/// lengths of its files, in all folders under it; `None` when the sum does
/// not fit in a `u64`.
pub fn ordner_groesse(eintraege: &Vec<Inhalt>) -> (r: Option<u64>)
    ensures
        r == (if groesse_von(eintraege@) <= u64::MAX {
            Some(groesse_von(eintraege@) as u64)
        } else {
            None::<u64>
        }),
    decreases eintraege@,
{
    let mut summe: u64 = 0;
    let mut i: usize = 0;
    while i < eintraege.len()
        invariant
            i <= eintraege.len(),
            summe == groesse_von(eintraege@.take(i as int)),
        decreases eintraege.len() - i,
    {
        let ghost t = eintraege@.take(i + 1);
        assert(t.drop_last() =~= eintraege@.take(i as int));
        assert(t[t.len() - 1] == eintraege@[i as int]);
        proof {
            lemma_groesse_praefix(eintraege@, i + 1);
            lemma_groesse_nicht_negativ(eintraege@.take(i as int));
        }
        let teil: u64 = match &eintraege[i] {
            Inhalt::Datei(n) => *n,
            Inhalt::Ordner(v) => {
                assert(decreases_to!(eintraege@ => eintraege@[i as int]));
                proof {
                    lemma_groesse_nicht_negativ(v@);
                }
                match ordner_groesse(v) {
                    Some(n) => n,
                    None => {
                        assert(groesse_von(t) == groesse_von(eintraege@.take(i as int)) + groesse_von(v@));
                        return None;
                    },
                }
            },
            Inhalt::Sonstiges => 0,
        };
        assert(groesse_von(t) == summe + teil);
        match summe.checked_add(teil) {
            Some(n) => {
                summe = n;
            },
            None => return None,
        }
        i += 1;
    }
    assert(eintraege@.take(eintraege.len() as int) =~= eintraege@);
    Some(summe)
}

} // verus!
