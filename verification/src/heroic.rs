//! Heroic (GOG): joins Heroic's install database with its library cache:
//! where a game really is, with the title and cover the cache knows.
use vstd::prelude::*;
use crate::Spiel;
use crate::gog::{Metadaten, ohne_app};
use crate::text::{beginnt_mit, ohne_app_endung, beginnt_mit_text, woerter, woerter_von};
use crate::pfad::{dateiname, dateiname_von};

verus! {

/// The last path component without `.app`, the fallback title; a path
/// without a file name stands for itself.
pub open spec fn ordnername_spec(pfad: Seq<char>) -> Seq<char> {
    ohne_app_endung(
        match dateiname(pfad) {
            Some(n) => n,
            None => pfad,
        },
    )
}

/// Last path component without `.app` (fallback title).
pub fn ordnername(pfad: &str) -> (r: String)
    ensures
        r@ == ordnername_spec(pfad@),
{
    let name = match dateiname_von(pfad) {
        Some(n) => n,
        None => String::from_str(pfad),
    };
    ohne_app(name.as_str())
}

/// A game of Heroic's library cache (`store_cache/gog_library.json`).
#[derive(Debug, Clone)]
pub struct GogSpiel {
    pub app_name: String,
    pub title: String,
    /// Portrait cover, fits the 2:3 grid.
    pub art_square: String,
    /// Landscape banner, only a fallback.
    pub art_cover: String,
}

/// The cover URL of a cached game: `art_square` if it is a web address, else
/// `art_cover` if that is, else none.
pub open spec fn heroic_cover_spec(g: GogSpiel) -> Seq<char> {
    if beginnt_mit(g.art_square@, "http"@) {
        g.art_square@
    } else if beginnt_mit(g.art_cover@, "http"@) {
        g.art_cover@
    } else {
        Seq::empty()
    }
}

/// An entry of Heroic's install database (`gog_store/installed.json`).
#[derive(Debug, Clone)]
pub struct Installiert {
    pub app_name: String,
    pub install_path: String,
    pub install_size: String,
}

/// Title and cover URL by app name, as the cache lists them: the portrait
/// cover before the banner, only web addresses (a later game with the same
/// app name wins).
pub open spec fn cache_spec(gs: Seq<GogSpiel>) -> Map<Seq<char>, (Seq<char>, Seq<char>)>
    decreases gs.len(),
{
    if gs.len() == 0 {
        Map::empty()
    } else {
        cache_spec(gs.drop_last()).insert(gs.last().app_name@, (gs.last().title@, heroic_cover_spec(gs.last())))
    }
}

/// Title and cover by app name from Heroic's library cache.
pub fn heroic_cache(games: &Vec<GogSpiel>) -> (m: Metadaten)
    ensures
        m@ == cache_spec(games@),
{
    let mut m = Metadaten::new();
    let mut i: usize = 0;
    while i < games.len()
        invariant
            i <= games.len(),
            m@ == cache_spec(games@.take(i as int)),
        decreases games.len() - i,
    {
        let g = &games[i];
        let url = if beginnt_mit_text(g.art_square.as_str(), "http") {
            g.art_square.clone()
        } else if beginnt_mit_text(g.art_cover.as_str(), "http") {
            g.art_cover.clone()
        } else {
            String::new()
        };
        m.insert(g.app_name.clone(), (g.title.clone(), url));
        assert(games@.take(i + 1).drop_last() =~= games@.take(i as int));
        i += 1;
    }
    assert(games@.take(games.len() as int) =~= games@);
    m
}

/// The game of an install entry: title and cover URL from the cache (the
/// portrait cover before the banner, as `cache_spec` chooses it), the folder
/// name standing in for a missing title; a cover that is no web address is
/// dropped.
pub open spec fn heroic_spiel_passt(s: Spiel, inst: Installiert, cache: Map<Seq<char>, (Seq<char>, Seq<char>)>, groesse: u64) -> bool {
    let (titel, url) = if cache.contains_key(inst.app_name@) {
        let (t, c) = cache[inst.app_name@];
        (
            if t.len() == 0 {
                ordnername_spec(inst.install_path@)
            } else {
                t
            },
            if beginnt_mit(c, "http"@) {
                c
            } else {
                Seq::<char>::empty()
            },
        )
    } else {
        (ordnername_spec(inst.install_path@), Seq::<char>::empty())
    };
    &&& s.id@ == inst.app_name@
    &&& s.titel@ == titel
    &&& s.quelle@ == "GOG"@
    &&& s.pfad@ == inst.install_path@
    &&& s.cover@ == Seq::<char>::empty()
    &&& s.cover_url@ == url
    &&& s.zuletzt_gespielt == 0
    &&& s.groesse_bytes == groesse
}

/// All installed Heroic/GOG games, in the order of the install database.
/// `groessen` holds the installed size in bytes of each entry, in order.
pub fn heroic_spiele(installiert: &Vec<Installiert>, cache: &Metadaten, groessen: &Vec<u64>) -> (r: Vec<Spiel>)
    requires
        groessen.len() == installiert.len(),
    ensures
        r.len() == installiert.len(),
        forall|i: int| 0 <= i < r.len() ==> heroic_spiel_passt(#[trigger] r@[i], installiert@[i], cache@, groessen@[i]),
{
    let mut r: Vec<Spiel> = Vec::new();
    let mut i: usize = 0;
    while i < installiert.len()
        invariant
            i <= installiert.len(),
            groessen.len() == installiert.len(),
            r.len() == i,
            forall|j: int| 0 <= j < i ==> heroic_spiel_passt(#[trigger] r@[j], installiert@[j], cache@, groessen@[j]),
        decreases installiert.len() - i,
    {
        let inst = &installiert[i];
        let (titel, cover_url) = match cache.get(inst.app_name.as_str()) {
            Some((t, c)) => {
                let url = if beginnt_mit_text(c.as_str(), "http") {
                    c
                } else {
                    String::new()
                };
                let titel = if t.as_str().is_empty() {
                    ordnername(inst.install_path.as_str())
                } else {
                    t
                };
                (titel, url)
            },
            None => (ordnername(inst.install_path.as_str()), String::new()),
        };
        r.push(
            Spiel {
                id: inst.app_name.clone(),
                titel,
                quelle: String::from_str("GOG"),
                pfad: inst.install_path.clone(),
                cover: String::new(),
                cover_url,
                zuletzt_gespielt: 0,
                groesse_bytes: groessen[i],
            },
        );
        i += 1;
    }
    r
}

/// The bytes a unit of Heroic's size texts stands for: `B`, `KiB`, `MiB`,
/// `GiB`, `TiB`; 0 for any other unit.
pub open spec fn einheit_faktor(u: Seq<char>) -> u64 {
    if u == "KiB"@ {
        1024
    } else if u == "MiB"@ {
        1048576
    } else if u == "GiB"@ {
        1073741824
    } else if u == "TiB"@ {
        1099511627776
    } else if u == "B"@ {
        1
    } else {
        0
    }
}

/// A size text of Heroic (`"678.36 MiB"`, `"1.5 GiB"`) in its parts: the
/// number as written and the bytes of its unit. `None` unless the text is
/// exactly two words. (The size in bytes is the number times the factor,
/// taken as floating point and cut to an integer; 0 when the number does not
/// read as one.)
pub fn groesse_zerlegen(text: &str) -> (r: Option<(String, u64)>)
    ensures
        r is Some <==> woerter(text@).len() == 2,
        r matches Some((zahl, faktor)) ==> zahl@ == woerter(text@)[0] && faktor == einheit_faktor(woerter(text@)[1]),
{
    let teile = woerter_von(text);
    if teile.len() != 2 {
        return None;
    }
    assert(teile@.map_values(|w: String| w@)[1] == teile@[1]@);
    assert(teile@.map_values(|w: String| w@)[0] == teile@[0]@);
    let u = &teile[1];
    let faktor: u64 = if *u == String::from_str("KiB") {
        1024
    } else if *u == String::from_str("MiB") {
        1048576
    } else if *u == String::from_str("GiB") {
        1073741824
    } else if *u == String::from_str("TiB") {
        1099511627776
    } else if *u == String::from_str("B") {
        1
    } else {
        0
    };
    Some((teile[0].clone(), faktor))
}

} // verus!
