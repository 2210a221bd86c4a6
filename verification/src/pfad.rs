//! Path helpers on plain text, with the meaning that `std::path` gives them on Unix.
use vstd::prelude::*;
use crate::text::{finde, letzter_index, zeichen_anhaengen, zeichen_von, string_aus, finde_ab, lemma_finde_grenzen, letzter_index_ab};

verus! {

/// `Path::join` on Unix: an absolute part replaces the base; otherwise the
/// part follows the base, with a `'/'` between them unless the base is empty
/// or already ends in one.
pub open spec fn pfad_verbinden(basis: Seq<char>, teil: Seq<char>) -> Seq<char> {
    if teil.len() > 0 && teil[0] == '/' {
        teil
    } else if basis.len() == 0 || basis.last() == '/' {
        basis + teil
    } else {
        basis + seq!['/'] + teil
    }
}

/// Appends the characters of `t` to `s`.
pub fn anhaengen(s: &mut String, t: &str)
    ensures
        final(s)@ == old(s)@ + t@,
{
    let v = zeichen_von(t);
    let mut i: usize = 0;
    while i < v.len()
        invariant
            i <= v.len(),
            v@ == t@,
            s@ == old(s)@ + v@.take(i as int),
        decreases v.len() - i,
    {
        zeichen_anhaengen(s, v[i]);
        assert(v@.take(i + 1) =~= v@.take(i as int).push(v@[i as int]));
        i += 1;
    }
    assert(v@.take(v.len() as int) =~= v@);
}

/// `Path::new(basis).join(teil)`, as text.
pub fn pfad_verbinden_exec(basis: &str, teil: &str) -> (r: String)
    ensures
        r@ == pfad_verbinden(basis@, teil@),
{
    let b = zeichen_von(basis);
    let t = zeichen_von(teil);
    if t.len() > 0 && t[0] == '/' {
        return string_aus(&t, 0, t.len());
    }
    let mut r = string_aus(&b, 0, b.len());
    if b.len() > 0 && b[b.len() - 1] != '/' {
        zeichen_anhaengen(&mut r, '/');
    }
    anhaengen(&mut r, teil);
    assert(b@.subrange(0, b.len() as int) =~= b@);
    r
}

/// The pieces of a path between its `'/'` (`str::split('/')`).
pub open spec fn teile(s: Seq<char>) -> Seq<Seq<char>>
    decreases s.len(),
{
    match finde(s, '/') {
        Some(i) => if 0 <= i < s.len() {
            seq![s.take(i)] + teile(s.skip(i + 1))
        } else {
            seq![s]
        },
        None => seq![s],
    }
}

/// A piece that is a component: not empty and not `.`.
pub open spec fn ist_komponente(t: Seq<char>) -> bool {
    t.len() > 0 && t != "."@
}

/// The components among the pieces, joined by `'/'`.
pub open spec fn komponenten_text(ts: Seq<Seq<char>>) -> Seq<char>
    decreases ts.len(),
{
    if ts.len() == 0 {
        Seq::empty()
    } else {
        let vorne = komponenten_text(ts.drop_last());
        let t = ts.last();
        if !ist_komponente(t) {
            vorne
        } else if vorne.len() == 0 {
            t
        } else {
            vorne + seq!['/'] + t
        }
    }
}

/// How a path starts: at the root (`/`), at the current folder (a leading
/// `.` alone or before `'/'`), or with a name.
pub open spec fn pfad_anfang(s: Seq<char>) -> Seq<char> {
    if s.len() > 0 && s[0] == '/' {
        "/"@
    } else if s.len() > 0 && s[0] == '.' && (s.len() == 1 || s[1] == '/') {
        "./"@
    } else {
        Seq::empty()
    }
}

/// The components of a path (`Path::components` on Unix) written out:
/// two paths are equal as `Path`s exactly when these agree, so that
/// repeated and trailing `'/'` and inner `.` make no difference.
pub open spec fn normalform(s: Seq<char>) -> Seq<char> {
    pfad_anfang(s) + komponenten_text(teile(s))
}

/// `normalform`, as text.
pub fn normalform_exec(pfad: &str) -> (r: String)
    ensures
        r@ == normalform(pfad@),
{
    proof {
        reveal_strlit("/");
        reveal_strlit("./");
        reveal_strlit(".");
    }
    let v = zeichen_von(pfad);
    let mut r = if v.len() > 0 && v[0] == '/' {
        String::from_str("/")
    } else if v.len() > 0 && v[0] == '.' && (v.len() == 1 || v[1] == '/') {
        String::from_str("./")
    } else {
        String::new()
    };
    let ghost anfang = r@;
    assert(anfang == pfad_anfang(pfad@));
    let mut teil = String::new();
    let mut p: usize = 0;
    let ghost mut fertig: Seq<Seq<char>> = Seq::empty();
    assert(v@.skip(0) =~= v@);
    loop
        invariant
            p <= v.len(),
            v@ == pfad@,
            anfang == pfad_anfang(pfad@),
            r@ == anfang,
            teile(v@) == fertig + teile(v@.skip(p as int)),
            teil@ == komponenten_text(fertig),
        decreases v.len() - p,
    {
        let ghost s = v@.skip(p as int);
        assert(v@.subrange(p as int, v.len() as int) =~= s);
        let (ende, weiter) = match finde_ab(&v, p, v.len(), '/') {
            Some(e) => (e, true),
            None => (v.len(), false),
        };
        proof {
            lemma_finde_grenzen(s, '/');
        }
        let stueck = string_aus(&v, p, ende);
        assert(stueck@ =~= s.take(ende - p));
        let punkt = String::from_str(".");
        let ghost alt = fertig;
        if !stueck.as_str().is_empty() && stueck != punkt {
            if !teil.as_str().is_empty() {
                zeichen_anhaengen(&mut teil, '/');
            }
            anhaengen(&mut teil, stueck.as_str());
        }
        proof {
            fertig = alt.push(stueck@);
            assert(fertig.drop_last() =~= alt);
        }
        if !weiter {
            assert(teile(s) =~= seq![s]);
            assert(s.take(ende - p) =~= s);
            assert(teile(v@) =~= fertig);
            anhaengen(&mut r, teil.as_str());
            return r;
        }
        assert(s.skip(ende - p + 1) =~= v@.skip(ende + 1));
        assert(teile(v@) =~= fertig + teile(v@.skip(ende + 1)));
        p = ende + 1;
    }
}

/// Where the body of a path starts: after a root `'/'`, or after a leading
/// `.` that stands for the current folder.
pub open spec fn koerper_start(p: Seq<char>) -> int {
    if p.len() > 0 && p[0] == '/' {
        1
    } else if p.len() > 0 && p[0] == '.' && (p.len() == 1 || p[1] == '/') {
        1
    } else {
        0
    }
}

/// How many characters the last piece of the body takes, with the `'/'`
/// before it.
pub open spec fn letztes_stueck_laenge(s: Seq<char>, start: int) -> int {
    match letzter_index(s.skip(start), '/') {
        Some(i) => s.len() - start - i,
        None => s.len() - start,
    }
}

/// The last piece of the body.
pub open spec fn letztes_stueck_ab(s: Seq<char>, start: int) -> Seq<char> {
    s.skip(s.len() - letztes_stueck_laenge(s, start) + (if letzter_index(s.skip(start), '/') is Some { 1int } else { 0 }))
}

/// The path without trailing pieces that are empty or `.` (trailing `'/'`
/// and `/.`), never cutting into what comes before the body.
pub open spec fn hinten_kuerzen(s: Seq<char>, start: int) -> Seq<char>
    decreases s.len(),
{
    if 0 <= start < s.len() && 0 < letztes_stueck_laenge(s, start) <= s.len() {
        let t = letztes_stueck_ab(s, start);
        if t.len() == 0 || t == "."@ {
            hinten_kuerzen(s.take(s.len() - letztes_stueck_laenge(s, start)), start)
        } else {
            s
        }
    } else {
        s
    }
}

/// `Path::parent` on Unix: the path without its last component and the
/// `'/'` and `.` pieces around it; none for a root or an empty path, and
/// the empty path for a single relative component.
pub open spec fn eltern(p: Seq<char>) -> Option<Seq<char>> {
    let start = koerper_start(p);
    let s = hinten_kuerzen(p, start);
    if s.len() > start && 0 < letztes_stueck_laenge(s, start) <= s.len() {
        Some(hinten_kuerzen(s.take(s.len() - letztes_stueck_laenge(s, start)), start))
    } else if p.len() > 0 && p[0] == '/' {
        None
    } else if start == 1 {
        Some(Seq::empty())
    } else {
        None
    }
}

/// Length of the last piece of `v[0..bis]`'s body, with its `'/'`.
fn stueck_laenge(v: &Vec<char>, start: usize, bis: usize) -> (r: (usize, bool))
    requires
        start < bis <= v.len(),
    ensures
        r.0 == letztes_stueck_laenge(v@.subrange(0, bis as int), start as int),
        0 < r.0 <= bis - start,
        r.1 == (letzter_index(v@.subrange(0, bis as int).skip(start as int), '/') is Some),
{
    let ghost s = v@.subrange(0, bis as int);
    assert(s.skip(start as int) =~= v@.subrange(start as int, bis as int));
    match letzter_index_ab(v, start, bis, '/') {
        Some(i) => (bis - i, true),
        None => (bis - start, false),
    }
}

/// `hinten_kuerzen` of `v[0..bis]`, as an end index.
fn hinten_kuerzen_ende(v: &Vec<char>, start: usize, bis: usize) -> (e: usize)
    requires
        start <= bis <= v.len(),
    ensures
        e <= bis,
        v@.subrange(0, e as int) == hinten_kuerzen(v@.subrange(0, bis as int), start as int),
{
    proof {
        reveal_strlit(".");
    }
    let mut e = bis;
    while e > start
        invariant
            start <= e <= bis <= v.len(),
            hinten_kuerzen(v@.subrange(0, e as int), start as int) == hinten_kuerzen(v@.subrange(0, bis as int), start as int),
        decreases e,
    {
        proof {
            reveal_strlit(".");
        }
        let ghost s = v@.subrange(0, e as int);
        let (n, sep) = stueck_laenge(v, start, e);
        let anfang = if sep { e - n + 1 } else { e - n };
        assert(letztes_stueck_ab(s, start as int) =~= v@.subrange(anfang as int, e as int));
        let leer = anfang == e;
        let punkt = e - anfang == 1 && v[anfang] == '.';
        proof {
            if e - anfang == 1 {
                assert(v@.subrange(anfang as int, e as int) =~= seq![v@[anfang as int]]);
            }
        }
        let ghost t = letztes_stueck_ab(s, start as int);
        assert(0 <= start < s.len());
        assert(0 < letztes_stueck_laenge(s, start as int) <= s.len());
        if leer || punkt {
            assert(t.len() == 0 || t == "."@);
            assert(hinten_kuerzen(s, start as int) == hinten_kuerzen(s.take(s.len() - letztes_stueck_laenge(s, start as int)), start as int));
            assert(s.take(e - n) =~= v@.subrange(0, e - n));
            e = e - n;
        } else {
            assert(t.len() == e - anfang);
            proof {
                if t == "."@ {
                    assert(t.len() == 1);
                    assert(t[0] == v@[anfang as int]);
                    assert(t[0] == '.');
                }
            }
            assert(!(t.len() == 0 || t == "."@));
            assert(hinten_kuerzen(s, start as int) == s);
            return e;
        }
    }
    e
}

/// `Path::new(pfad).parent()`, as text.
pub fn eltern_exec(pfad: &str) -> (r: Option<String>)
    ensures
        crate::text::sicht(r) == eltern(pfad@),
{
    let v = zeichen_von(pfad);
    let start: usize = if v.len() > 0 && v[0] == '/' {
        1
    } else if v.len() > 0 && v[0] == '.' && (v.len() == 1 || v[1] == '/') {
        1
    } else {
        0
    };
    assert(v@.subrange(0, v.len() as int) =~= v@);
    let s = hinten_kuerzen_ende(&v, start, v.len());
    if s > start {
        let (n, _sep) = stueck_laenge(&v, start, s);
        let e = hinten_kuerzen_ende(&v, start, s - n);
        assert(v@.subrange(0, s as int).take(s - n) =~= v@.subrange(0, s - n));
        Some(string_aus(&v, 0, e))
    } else if v.len() > 0 && v[0] == '/' {
        None
    } else if start == 1 {
        Some(String::new())
    } else {
        None
    }
}

/// The text after the last `'/'` (all of it when there is none).
pub open spec fn letztes_stueck(s: Seq<char>) -> Seq<char> {
    match letzter_index(s, '/') {
        Some(i) => s.skip(i + 1),
        None => s,
    }
}

/// `Path::file_name` on Unix: the last component of the path, trailing
/// `'/'` and `.` components left aside; none when that is `..`, or when
/// nothing but a root or `.` is left.
pub open spec fn dateiname(s: Seq<char>) -> Option<Seq<char>>
    decreases s.len(),
{
    let t = letztes_stueck(s);
    if t.len() == 0 || t == "."@ {
        match letzter_index(s, '/') {
            Some(i) => if 0 <= i < s.len() {
                dateiname(s.take(i))
            } else {
                None
            },
            None => None,
        }
    } else if t == ".."@ {
        None
    } else {
        Some(t)
    }
}

/// `Path::new(pfad).file_name()`, as text.
pub fn dateiname_von(pfad: &str) -> (r: Option<String>)
    ensures
        crate::text::sicht(r) == dateiname(pfad@),
{
    let v = zeichen_von(pfad);
    let punkt = String::from_str(".");
    let punkt_punkt = String::from_str("..");
    let mut bis = v.len();
    assert(v@.subrange(0, v.len() as int) =~= v@);
    loop
        invariant
            bis <= v.len(),
            punkt@ == "."@,
            punkt_punkt@ == ".."@,
            dateiname(pfad@) == dateiname(v@.subrange(0, bis as int)),
            v@ == pfad@,
        decreases bis,
    {
        let ghost s = v@.subrange(0, bis as int);
        let start = match letzter_index_ab(&v, 0, bis, '/') {
            Some(i) => i + 1,
            None => 0,
        };
        assert(letztes_stueck(s) =~= v@.subrange(start as int, bis as int));
        let t = string_aus(&v, start, bis);
        if t.as_str().is_empty() || t == punkt {
            if start == 0 {
                return None;
            }
            assert(s.take(start - 1) =~= v@.subrange(0, start - 1));
            bis = start - 1;
        } else if t == punkt_punkt {
            return None;
        } else {
            return Some(t);
        }
    }
}

/// `Path::extension` on Unix: what follows the last `'.'` of the file name,
/// unless the name has no `'.'` but a leading one, or none at all.
pub open spec fn erweiterung(pfad: Seq<char>) -> Option<Seq<char>> {
    match dateiname(pfad) {
        Some(n) => match letzter_index(n, '.') {
            Some(i) => if i > 0 {
                Some(n.skip(i + 1))
            } else {
                None
            },
            None => None,
        },
        None => None,
    }
}


/// `Path::extension`, as text.
pub fn erweiterung_von(pfad: &str) -> (r: Option<String>)
    ensures
        crate::text::sicht(r) == erweiterung(pfad@),
{
    match dateiname_von(pfad) {
        Some(n) => {
            let v = zeichen_von(n.as_str());
            assert(v@.subrange(0, v.len() as int) =~= v@);
            match letzter_index_ab(&v, 0, v.len(), '.') {
                Some(i) => {
                    if i > 0 {
                        let e = string_aus(&v, i + 1, v.len());
                        assert(e@ =~= v@.skip(i + 1));
                        Some(e)
                    } else {
                        None
                    }
                },
                None => None,
            }
        },
        None => None,
    }
}

/// `Path::file_stem` on Unix: the file name up to its last `'.'`, or all
/// of it when it has no `'.'` but a leading one, or none at all.
pub open spec fn dateistamm(pfad: Seq<char>) -> Option<Seq<char>> {
    match dateiname(pfad) {
        Some(n) => match letzter_index(n, '.') {
            Some(i) => if i > 0 {
                Some(n.take(i))
            } else {
                Some(n)
            },
            None => Some(n),
        },
        None => None,
    }
}

/// `Path::file_stem`, as text.
pub fn dateistamm_von(pfad: &str) -> (r: Option<String>)
    ensures
        crate::text::sicht(r) == dateistamm(pfad@),
{
    match dateiname_von(pfad) {
        Some(n) => {
            let v = zeichen_von(n.as_str());
            assert(v@.subrange(0, v.len() as int) =~= v@);
            match letzter_index_ab(&v, 0, v.len(), '.') {
                Some(i) => {
                    if i > 0 {
                        let s = string_aus(&v, 0, i);
                        assert(s@ =~= v@.take(i as int));
                        Some(s)
                    } else {
                        Some(n)
                    }
                },
                None => Some(n),
            }
        },
        None => None,
    }
}

} // verus!
