//! The icon resolver: deterministic selection of the best icon asset for a
//! symbolic icon name among the files of a harvested icon tree, with a
//! plain first-match fallback over a pixmap tree. A vector asset always
//! outscores raster assets; a raster asset scores the pixel size parsed
//! from its grandparent directory's `<N>x<N>` name, defaulting to the
//! minimum. Ties keep the candidate encountered first.

use vstd::prelude::*;
use vstd::string::*;

use crate::text::{
    eq_str, find_ch, find_char_str, parse_u32_spec, parse_u32_str, rfind_ch, rfind_char_str,
};

verus! {

/// The inferred format of an icon asset.
#[derive(Debug, Clone, Copy, PartialEq, Eq, Structural)]
pub enum IconFormat {
    /// A scalable vector image, unconditionally preferable.
    Vector,
    /// A raster image with its inferred pixel-size bucket.
    Raster(u32),
    /// Any other file; resolvable but discarded before registration.
    Other,
}

/// A resolved icon asset.
pub struct IconAsset {
    /// Absolute source path of the asset.
    pub path: String,
    /// Inferred format.
    pub format: IconFormat,
}

/// The mathematical shape of a resolved asset.
pub struct IconAssetView {
    pub path: Seq<char>,
    pub format: IconFormat,
}

impl View for IconAsset {
    type V = IconAssetView;

    open spec fn view(&self) -> IconAssetView {
        IconAssetView { path: self.path@, format: self.format }
    }
}

/// The path component after the last `/`.
pub open spec fn file_name(p: Seq<char>) -> Seq<char> {
    match rfind_ch(p, '/') {
        None => p,
        Some(i) => p.subrange(i + 1, p.len() as int),
    }
}

/// The path up to (excluding) the last `/`; empty without one.
pub open spec fn parent_dir(p: Seq<char>) -> Seq<char> {
    match rfind_ch(p, '/') {
        None => Seq::empty(),
        Some(i) => p.subrange(0, i),
    }
}

/// The file name up to its last `.`; a lone leading dot starts no
/// extension.
pub open spec fn stem_of(p: Seq<char>) -> Seq<char> {
    let f = file_name(p);
    match rfind_ch(f, '.') {
        None => f,
        Some(d) => if d == 0 {
            f
        } else {
            f.subrange(0, d)
        },
    }
}

/// The file name's extension after its last `.`, if any.
pub open spec fn ext_of(p: Seq<char>) -> Option<Seq<char>> {
    let f = file_name(p);
    match rfind_ch(f, '.') {
        None => None,
        Some(d) => if d == 0 {
            None
        } else {
            Some(f.subrange(d + 1, f.len() as int))
        },
    }
}

/// Name of the directory two levels above the file: for a raster asset
/// laid out as `<N>x<N>/apps/icon.png` this is the size bucket.
pub open spec fn grandparent_name(p: Seq<char>) -> Seq<char> {
    file_name(parent_dir(parent_dir(p)))
}

/// Pixel size parsed from the text before the first `x` of the
/// grandparent directory's name; minimum when absent or unparseable.
pub open spec fn raster_size(p: Seq<char>) -> u32 {
    let g = grandparent_name(p);
    match find_ch(g, 'x') {
        None => 0,
        Some(i) => match parse_u32_spec(g.subrange(0, i)) {
            None => 0,
            Some(v) => v,
        },
    }
}

/// Format inferred from the extension alone; raster assets carry their
/// size bucket.
pub open spec fn classify(p: Seq<char>) -> IconFormat {
    if ext_of(p) == Some("svg"@) {
        IconFormat::Vector
    } else if ext_of(p) == Some("png"@) {
        IconFormat::Raster(raster_size(p))
    } else {
        IconFormat::Other
    }
}

/// The score an asset competes with.
pub open spec fn score(f: IconFormat) -> u32 {
    match f {
        IconFormat::Vector => u32::MAX,
        IconFormat::Raster(n) => n,
        IconFormat::Other => 0,
    }
}

/// Fold over `rest` keeping the best-scoring candidate whose stem equals
/// `name`; a later candidate replaces the held one only with a strictly
/// greater score, so the first of equally scored candidates wins.
pub open spec fn best_cand_from(
    cur: Option<Seq<char>>,
    rest: Seq<Seq<char>>,
    name: Seq<char>,
) -> Option<Seq<char>>
    decreases rest.len(),
{
    if rest.len() == 0 {
        cur
    } else {
        let c0 = rest[0];
        let cur2 = if stem_of(c0) == name {
            match cur {
                None => Some(c0),
                Some(b) => if score(classify(c0)) > score(classify(b)) {
                    Some(c0)
                } else {
                    Some(b)
                },
            }
        } else {
            cur
        };
        best_cand_from(cur2, rest.drop_first(), name)
    }
}

/// The winning candidate among the icon-tree entries.
pub open spec fn resolve_in_icons(name: Seq<char>, entries: Seq<Seq<char>>) -> Option<Seq<char>> {
    best_cand_from(None, entries, name)
}

/// First entry whose stem equals `name`, with no scoring.
pub open spec fn first_stem_match(name: Seq<char>, entries: Seq<Seq<char>>) -> Option<Seq<char>>
    decreases entries.len(),
{
    if entries.len() == 0 {
        None
    } else if stem_of(entries[0]) == name {
        Some(entries[0])
    } else {
        first_stem_match(name, entries.drop_first())
    }
}

pub open spec fn asset_view(p: Seq<char>) -> IconAssetView {
    IconAssetView { path: p, format: classify(p) }
}

/// Resolution over both trees: the best icon-tree candidate, else the
/// first pixmap-tree match, else nothing.
pub open spec fn resolve_spec(
    name: Seq<char>,
    icons: Seq<Seq<char>>,
    pixmaps: Seq<Seq<char>>,
) -> Option<IconAssetView> {
    match resolve_in_icons(name, icons) {
        Some(p) => Some(asset_view(p)),
        None => match first_stem_match(name, pixmaps) {
            Some(p) => Some(asset_view(p)),
            None => None,
        },
    }
}

/// What the candidate fold guarantees: the result is a held or listed
/// candidate, it outscores the held one and every listed candidate, and a
/// held candidate that no listed one strictly outscores is kept.
pub proof fn lemma_best_cand_props(cur: Option<Seq<char>>, rest: Seq<Seq<char>>, name: Seq<char>)
    ensures
        match best_cand_from(cur, rest, name) {
            None => cur is None && (forall|i: int|
                0 <= i < rest.len() ==> stem_of(#[trigger] rest[i]) != name),
            Some(b) => (cur == Some(b) || (exists|i: int|
                0 <= i < rest.len() && stem_of(#[trigger] rest[i]) == name && rest[i] == b)) && (
            match cur {
                Some(c) => score(classify(b)) >= score(classify(c)) && ((forall|i: int|
                    0 <= i < rest.len() && stem_of(#[trigger] rest[i]) == name ==> score(
                        classify(c),
                    ) >= score(classify(rest[i]))) ==> b == c),
                None => true,
            }) && (forall|i: int|
                0 <= i < rest.len() && stem_of(#[trigger] rest[i]) == name ==> score(classify(b))
                    >= score(classify(rest[i]))),
        },
    decreases rest.len(),
{
    if rest.len() == 0 {
    } else {
        let c0 = rest[0];
        let cur2 = if stem_of(c0) == name {
            match cur {
                None => Some(c0),
                Some(b) => if score(classify(c0)) > score(classify(b)) {
                    Some(c0)
                } else {
                    Some(b)
                },
            }
        } else {
            cur
        };
        lemma_best_cand_props(cur2, rest.drop_first(), name);
        let tail = rest.drop_first();
        assert(forall|i: int| 1 <= i < rest.len() ==> rest[i] == #[trigger] tail[i - 1]);
        match best_cand_from(cur, rest, name) {
            None => {
                assert(best_cand_from(cur2, tail, name) is None);
                assert forall|i: int| 0 <= i < rest.len() implies stem_of(
                    #[trigger] rest[i],
                ) != name by {
                    if i == 0 {
                        assert(cur2 is None);
                    } else {
                        assert(rest[i] == tail[i - 1]);
                        assert(stem_of(tail[i - 1]) != name);
                    }
                }
            },
            Some(b) => {
                // The result is held or listed.
                if cur2 == Some(b) {
                    if cur != Some(b) {
                        assert(stem_of(c0) == name && c0 == b);
                        assert(stem_of(rest[0]) == name && rest[0] == b);
                    }
                } else {
                    let i = choose|i: int|
                        0 <= i < tail.len() && stem_of(#[trigger] tail[i]) == name && tail[i] == b;
                    assert(stem_of(rest[i + 1]) == name && rest[i + 1] == b);
                }
                // The result outscores every listed candidate.
                assert forall|i: int|
                    0 <= i < rest.len() && stem_of(#[trigger] rest[i]) == name implies score(
                    classify(b),
                ) >= score(classify(rest[i])) by {
                    if i == 0 {
                        match cur2 {
                            None => {
                                assert(false);
                            },
                            Some(c2) => {
                                assert(score(classify(c2)) >= score(classify(c0)));
                                assert(score(classify(b)) >= score(classify(c2)));
                            },
                        }
                    } else {
                        assert(stem_of(tail[i - 1]) == name);
                    }
                }
                // A held candidate that nothing strictly outscores is kept.
                match cur {
                    None => {},
                    Some(c) => {
                        assert(score(classify(b)) >= score(classify(c)));
                        if forall|i: int|
                            0 <= i < rest.len() && stem_of(#[trigger] rest[i]) == name ==> score(
                                classify(c),
                            ) >= score(classify(rest[i])) {
                            assert(cur2 == cur) by {
                                if stem_of(c0) == name {
                                    assert(stem_of(rest[0]) == name);
                                    assert(score(classify(c)) >= score(classify(rest[0])));
                                }
                            }
                            assert forall|i: int|
                                0 <= i < tail.len() && stem_of(#[trigger] tail[i])
                                    == name implies score(classify(c)) >= score(
                                classify(tail[i]),
                            ) by {
                                assert(tail[i] == rest[i + 1]);
                                assert(stem_of(rest[i + 1]) == name);
                            }
                            assert(b == c);
                        }
                    },
                }
            },
        }
    }
}

/// When a vector asset for the name stands in the icon tree and no raster
/// candidate reaches the maximal score, resolution returns a vector
/// asset.
pub proof fn lemma_vector_wins(
    name: Seq<char>,
    icons: Seq<Seq<char>>,
    pixmaps: Seq<Seq<char>>,
    v: Seq<char>,
    vi: int,
)
    requires
        0 <= vi < icons.len(),
        icons[vi] == v,
        stem_of(v) == name,
        classify(v) is Vector,
        forall|j: int|
            0 <= j < icons.len() && stem_of(#[trigger] icons[j]) == name && !(classify(icons[j])
                is Vector) ==> score(classify(icons[j])) < u32::MAX,
    ensures
        resolve_spec(name, icons, pixmaps) matches Some(a) && a.format is Vector,
{
    lemma_best_cand_props(None, icons, name);
    match best_cand_from(None, icons, name) {
        None => {
            assert(stem_of(icons[vi]) != name);
            assert(false);
        },
        Some(b) => {
            assert(score(classify(b)) >= score(classify(icons[vi])));
            assert(score(classify(v)) == u32::MAX);
            if !(classify(b) is Vector) {
                assert(exists|i: int|
                    0 <= i < icons.len() && stem_of(#[trigger] icons[i]) == name && icons[i] == b);
                let i = choose|i: int|
                    0 <= i < icons.len() && stem_of(#[trigger] icons[i]) == name && icons[i] == b;
                assert(score(classify(icons[i])) < u32::MAX);
                assert(false);
            }
        },
    }
}

/// When exactly two raster assets for the name stand in the icon tree,
/// sized 48 and 96, resolution returns the 96-sized one.
pub proof fn lemma_larger_raster_wins(
    name: Seq<char>,
    icons: Seq<Seq<char>>,
    pixmaps: Seq<Seq<char>>,
    small: Seq<char>,
    large: Seq<char>,
    si: int,
    li: int,
)
    requires
        0 <= si < icons.len(),
        0 <= li < icons.len(),
        icons[si] == small,
        icons[li] == large,
        stem_of(small) == name,
        stem_of(large) == name,
        classify(small) == IconFormat::Raster(48u32),
        classify(large) == IconFormat::Raster(96u32),
        forall|j: int|
            0 <= j < icons.len() && stem_of(#[trigger] icons[j]) == name ==> icons[j] == small
                || icons[j] == large,
    ensures
        resolve_spec(name, icons, pixmaps) == Some(asset_view(large)),
{
    lemma_best_cand_props(None, icons, name);
    match best_cand_from(None, icons, name) {
        None => {
            assert(stem_of(icons[li]) != name);
            assert(false);
        },
        Some(b) => {
            assert(score(classify(b)) >= score(classify(icons[li])));
            assert(score(classify(large)) == 96);
            assert(score(classify(small)) == 48);
            assert(exists|i: int|
                0 <= i < icons.len() && stem_of(#[trigger] icons[i]) == name && icons[i] == b);
            let i = choose|i: int|
                0 <= i < icons.len() && stem_of(#[trigger] icons[i]) == name && icons[i] == b;
            assert(icons[i] == small || icons[i] == large);
            assert(b == large);
        },
    }
}

/// The path component after the last `/`.
pub fn file_name_str<'a>(p: &'a str) -> (r: &'a str)
    ensures
        r@ == file_name(p@),
{
    let n = p.unicode_len();
    match rfind_char_str(p, '/') {
        None => p,
        Some(i) => {
            proof {
                crate::text::lemma_rfind_ch(p@, '/');
            }
            p.substring_char(i + 1, n)
        },
    }
}

/// The path up to (excluding) the last `/`.
pub fn parent_dir_str<'a>(p: &'a str) -> (r: &'a str)
    ensures
        r@ == parent_dir(p@),
{
    let n = p.unicode_len();
    match rfind_char_str(p, '/') {
        None => {
            let r = p.substring_char(0, 0);
            proof {
                assert(r@ =~= Seq::<char>::empty());
            }
            r
        },
        Some(i) => {
            proof {
                crate::text::lemma_rfind_ch(p@, '/');
            }
            p.substring_char(0, i)
        },
    }
}

/// The file name up to its last `.`.
pub fn stem_of_str<'a>(p: &'a str) -> (r: &'a str)
    ensures
        r@ == stem_of(p@),
{
    let f = file_name_str(p);
    let flen = f.unicode_len();
    match rfind_char_str(f, '.') {
        None => f,
        Some(d) => {
            proof {
                crate::text::lemma_rfind_ch(f@, '.');
            }
            if d == 0 {
                f
            } else {
                f.substring_char(0, d)
            }
        },
    }
}

/// Pixel size from the grandparent directory name.
pub fn raster_size_str(p: &str) -> (r: u32)
    ensures
        r == raster_size(p@),
{
    let p1 = parent_dir_str(p);
    let p2 = parent_dir_str(p1);
    let g = file_name_str(p2);
    let glen = g.unicode_len();
    match find_char_str(g, 'x') {
        None => 0,
        Some(i) => {
            proof {
                crate::text::lemma_find_ch(g@, 'x');
            }
            let prefix = g.substring_char(0, i);
            match parse_u32_str(prefix) {
                Some(v) => v,
                None => 0,
            }
        },
    }
}

/// Format inferred from the extension.
pub fn classify_str(p: &str) -> (r: IconFormat)
    ensures
        r == classify(p@),
{
    let f = file_name_str(p);
    let flen = f.unicode_len();
    match rfind_char_str(f, '.') {
        None => IconFormat::Other,
        Some(d) => {
            proof {
                crate::text::lemma_rfind_ch(f@, '.');
            }
            if d == 0 {
                IconFormat::Other
            } else {
                let ext = f.substring_char(d + 1, flen);
                if eq_str(ext, "svg") {
                    IconFormat::Vector
                } else if eq_str(ext, "png") {
                    IconFormat::Raster(raster_size_str(p))
                } else {
                    IconFormat::Other
                }
            }
        },
    }
}

/// The numeric score of a format.
pub fn score_of(f: IconFormat) -> (r: u32)
    ensures
        r == score(f),
{
    match f {
        IconFormat::Vector => u32::MAX,
        IconFormat::Raster(n) => n,
        IconFormat::Other => 0,
    }
}

/// Resolve the best asset for `icon_name` among the listed icon-tree
/// entries, falling back to the first stem match among the pixmap-tree
/// entries.
pub fn lookup_icon(
    icon_name: &str,
    icon_entries: &Vec<String>,
    pixmap_entries: &Vec<String>,
) -> (r: Option<IconAsset>)
    ensures
        match r {
            Some(a) => resolve_spec(icon_name@, icon_entries.deep_view(), pixmap_entries.deep_view())
                == Some(a@),
            None => resolve_spec(icon_name@, icon_entries.deep_view(), pixmap_entries.deep_view())
                is None,
        },
{
    let ghost dv = icon_entries.deep_view();
    let n = icon_entries.len();
    let mut best: Option<usize> = None;
    let mut best_score: u32 = 0;
    let mut i: usize = 0;
    proof {
        assert(dv.skip(0) =~= dv);
    }
    while i < n
        invariant
            n == icon_entries@.len(),
            dv == icon_entries.deep_view(),
            0 <= i <= n,
            match best {
                None => best_cand_from(None, dv.skip(i as int), icon_name@) == best_cand_from(
                    None,
                    dv,
                    icon_name@,
                ),
                Some(b) => b < i && best_cand_from(
                    Some(dv[b as int]),
                    dv.skip(i as int),
                    icon_name@,
                ) == best_cand_from(None, dv, icon_name@) && best_score == score(
                    classify(dv[b as int]),
                ),
            },
        decreases n - i,
    {
        proof {
            assert(dv.skip(i as int)[0] == dv[i as int]);
            assert(dv.skip(i as int).drop_first() =~= dv.skip(i + 1));
            assert(dv[i as int] == icon_entries@[i as int]@);
        }
        let entry = icon_entries[i].as_str();
        if eq_str(stem_of_str(entry), icon_name) {
            let sc = score_of(classify_str(entry));
            match best {
                None => {
                    best = Some(i);
                    best_score = sc;
                },
                Some(_) => {
                    if sc > best_score {
                        best = Some(i);
                        best_score = sc;
                    }
                },
            }
        }
        i += 1;
    }
    proof {
        assert(dv.skip(n as int) =~= Seq::<Seq<char>>::empty());
    }
    match best {
        None => {
            let ghost pv = pixmap_entries.deep_view();
            let m = pixmap_entries.len();
            let mut j: usize = 0;
            proof {
                assert(pv.skip(0) =~= pv);
            }
            while j < m
                invariant
                    m == pixmap_entries@.len(),
                    pv == pixmap_entries.deep_view(),
                    0 <= j <= m,
                    resolve_in_icons(icon_name@, icon_entries.deep_view()) is None,
                    first_stem_match(icon_name@, pv.skip(j as int)) == first_stem_match(
                        icon_name@,
                        pv,
                    ),
                decreases m - j,
            {
                proof {
                    assert(pv.skip(j as int)[0] == pv[j as int]);
                    assert(pv.skip(j as int).drop_first() =~= pv.skip(j + 1));
                    assert(pv[j as int] == pixmap_entries@[j as int]@);
                }
                let entry = pixmap_entries[j].as_str();
                if eq_str(stem_of_str(entry), icon_name) {
                    let fmt = classify_str(entry);
                    return Some(IconAsset { path: pixmap_entries[j].clone(), format: fmt });
                }
                j += 1;
            }
            proof {
                assert(pv.skip(m as int) =~= Seq::<Seq<char>>::empty());
            }
            None
        },
        Some(b) => {
            let fmt = classify_str(icon_entries[b].as_str());
            Some(IconAsset { path: icon_entries[b].clone(), format: fmt })
        },
    }
}

} // verus!
