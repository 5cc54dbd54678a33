//! Editor themes: their data, the cache that keeps them by id, the
//! collection of theme files, and the reading of the desktop's light or
//! dark preference.

use std::collections::HashMap;
use vstd::prelude::*;
use crate::text::{
    chars_eq, chars_of, contains_chars, eq_ignore_ascii_case_chars, eq_ignoring_ascii_case,
    lossy_utf8, lowercase, remove_quotes, seq_contains, str_eq, strip_quotes, to_lowercase,
    trim_chars, trim_ws, utf8_lossy,
};

verus! {

/// A theme as a theme file describes it.
#[derive(Debug, Clone)]
pub struct TomlTheme {
    pub id: String,
    pub name: String,
    pub description: String,
    /// "System", "Light" or "Dark"
    pub category: String,
    pub is_dark: Option<bool>,
    pub css_variables: HashMap<String, String>,
    pub syntax_tokens: Option<HashMap<String, String>>,
}

/// The content of a theme file: its themes, in order.
#[derive(Debug, Clone)]
pub struct TomlThemeFile {
    pub themes: Vec<TomlTheme>,
}

/// The themes of `s` by id: for each id, the last theme of `s` with it.
pub open spec fn themes_by_id(s: Seq<TomlTheme>) -> Map<Seq<char>, TomlTheme>
    decreases s.len(),
{
    if s.len() == 0 {
        Map::empty()
    } else {
        themes_by_id(s.drop_last()).insert(s.last().id@, s.last())
    }
}

/// No two themes of `s` share an id.
pub open spec fn ids_distinct(s: Seq<TomlTheme>) -> bool {
    forall|i: int, j: int| 0 <= i < j < s.len() ==> (#[trigger] s[i]).id@ != (#[trigger] s[j]).id@
}

/// The themes that have been cached, at most one per id.
pub struct ThemeCache {
    themes: Vec<TomlTheme>,
}

impl ThemeCache {
    /// The cached themes are kept with no two of the same id.
    #[verifier::type_invariant]
    spec fn ids_unique(self) -> bool {
        ids_distinct(self.themes@)
    }

    /// The cached themes by id.
    pub closed spec fn view(&self) -> Map<Seq<char>, TomlTheme> {
        themes_by_id(self.themes@)
    }

    /// An empty cache.
    pub fn new() -> (res: ThemeCache)
        ensures
            res.view() == Map::<Seq<char>, TomlTheme>::empty(),
    {
        ThemeCache { themes: Vec::new() }
    }
}

proof fn lemma_in_dom(s: Seq<TomlTheme>, id: Seq<char>)
    requires
        themes_by_id(s).dom().contains(id),
    ensures
        exists|k: int| 0 <= k < s.len() && (#[trigger] s[k]).id@ == id,
    decreases s.len(),
{
    if s.len() > 0 {
        if id != s.last().id@ {
            let p = s.drop_last();
            lemma_in_dom(p, id);
            let k = choose|k: int| 0 <= k < p.len() && (#[trigger] p[k]).id@ == id;
            assert(s[k] == p[k]);
        } else {
            assert(s[s.len() - 1].id@ == id);
        }
    }
}

proof fn lemma_themes_by_id_distinct(s: Seq<TomlTheme>)
    requires
        ids_distinct(s),
    ensures
        forall|k: int|
            0 <= k < s.len() ==> themes_by_id(s).dom().contains((#[trigger] s[k]).id@)
                && themes_by_id(s)[s[k].id@] == s[k],
        themes_by_id(s).dom().len() == s.len(),
        themes_by_id(s).dom().finite(),
    decreases s.len(),
{
    if s.len() > 0 {
        let p = s.drop_last();
        assert(ids_distinct(p)) by {
            assert forall|i: int, j: int| 0 <= i < j < p.len() implies (#[trigger] p[i]).id@
                != (#[trigger] p[j]).id@ by {
                assert(p[i] == s[i] && p[j] == s[j]);
            }
        }
        lemma_themes_by_id_distinct(p);
        assert(!themes_by_id(p).dom().contains(s.last().id@)) by {
            if themes_by_id(p).dom().contains(s.last().id@) {
                lemma_in_dom(p, s.last().id@);
                let k = choose|k: int| 0 <= k < p.len() && (#[trigger] p[k]).id@ == s.last().id@;
                assert(p[k] == s[k]);
                assert(s[k].id@ != s[s.len() - 1].id@);
            }
        }
        assert forall|k: int| 0 <= k < s.len() implies themes_by_id(s).dom().contains(
            (#[trigger] s[k]).id@,
        ) && themes_by_id(s)[s[k].id@] == s[k] by {
            if k < s.len() - 1 {
                assert(p[k] == s[k]);
                assert(s[k].id@ != s[s.len() - 1].id@);
            }
        }
    }
}

/// Replacing a theme by one of the same id replaces it in the map by id.
proof fn lemma_themes_by_id_update(s: Seq<TomlTheme>, i: int, t: TomlTheme)
    requires
        ids_distinct(s),
        0 <= i < s.len(),
        s[i].id@ == t.id@,
    ensures
        themes_by_id(s.update(i, t)) == themes_by_id(s).insert(t.id@, t),
    decreases s.len(),
{
    let u = s.update(i, t);
    let p = s.drop_last();
    if i == s.len() - 1 {
        assert(u.drop_last() == p);
        lemma_themes_by_id_distinct(s);
        assert(themes_by_id(u) =~= themes_by_id(s).insert(t.id@, t));
    } else {
        assert(ids_distinct(p)) by {
            assert forall|a: int, b: int| 0 <= a < b < p.len() implies (#[trigger] p[a]).id@
                != (#[trigger] p[b]).id@ by {
                assert(p[a] == s[a] && p[b] == s[b]);
            }
        }
        assert(p[i] == s[i]);
        lemma_themes_by_id_update(p, i, t);
        assert(u.drop_last() == p.update(i, t));
        assert(u.last() == s.last());
        assert(s.last().id@ != t.id@) by {
            assert(s[i].id@ != s[s.len() - 1].id@);
        }
        assert(themes_by_id(u) =~= themes_by_id(s).insert(t.id@, t));
    }
}

/// The cache after caching the themes of `s` in order into a cache holding `m`.
pub open spec fn cached_after(m: Map<Seq<char>, TomlTheme>, s: Seq<TomlTheme>) -> Map<Seq<char>, TomlTheme>
    decreases s.len(),
{
    if s.len() == 0 {
        m
    } else {
        cached_after(m, s.drop_last()).insert(s.last().id@, s.last())
    }
}

fn cache_one(themes: &mut Vec<TomlTheme>, theme: TomlTheme)
    requires
        ids_distinct(old(themes)@),
    ensures
        ids_distinct(final(themes)@),
        themes_by_id(final(themes)@) == themes_by_id(old(themes)@).insert(theme.id@, theme),
{
    let mut i: usize = 0;
    while i < themes.len()
        invariant
            ids_distinct(themes@),
            themes@ == old(themes)@,
            i <= themes@.len(),
            forall|k: int| 0 <= k < i ==> (#[trigger] themes@[k]).id@ != theme.id@,
        decreases themes@.len() - i,
    {
        if themes[i].id == theme.id {
            proof {
                lemma_themes_by_id_update(themes@, i as int, theme);
                assert forall|a: int, b: int| 0 <= a < b < themes@.update(i as int, theme).len() implies
                    (#[trigger] themes@.update(i as int, theme)[a]).id@
                    != (#[trigger] themes@.update(i as int, theme)[b]).id@ by {
                    assert(themes@[a].id@ != themes@[b].id@);
                }
            }
            themes.set(i, theme);
            return;
        }
        i += 1;
    }
    proof {
        let s = themes@;
        let u = s.push(theme);
        assert(u.drop_last() == s);
        assert forall|a: int, b: int| 0 <= a < b < u.len() implies (#[trigger] u[a]).id@
            != (#[trigger] u[b]).id@ by {
            if b == u.len() - 1 {
                assert(u[a] == s[a]);
            } else {
                assert(u[a] == s[a] && u[b] == s[b]);
            }
        }
    }
    themes.push(theme);
}

/// Caches `themes` in order, each under its id, a later theme replacing an
/// earlier one of the same id.
pub fn cache_themes(themes: Vec<TomlTheme>, cache: &mut ThemeCache)
    ensures
        final(cache).view() == cached_after(old(cache).view(), themes@),
{
    proof {
        use_type_invariant(&*cache);
    }
    let ghost start = cache.view();
    let ghost all = themes@;
    let mut cached: Vec<TomlTheme> = Vec::new();
    std::mem::swap(&mut cached, &mut cache.themes);
    for theme in it: themes.into_iter()
        invariant
            ids_distinct(cached@),
            all == it.seq(),
            themes_by_id(cached@) == cached_after(start, all.take(it.index())),
    {
        proof {
            assert(all.take(it.index() + 1).drop_last() == all.take(it.index()));
        }
        cache_one(&mut cached, theme);
    }
    assert(all.take(all.len() as int) == all);
    cache.themes = cached;
}

/// The cached themes, one per id, in no particular order.
pub fn get_cached_themes(cache: &ThemeCache) -> (res: &Vec<TomlTheme>)
    ensures
        ids_distinct(res@),
        res@.len() == cache.view().dom().len(),
        forall|k: int|
            0 <= k < res@.len() ==> cache.view().dom().contains((#[trigger] res@[k]).id@)
                && cache.view()[res@[k].id@] == res@[k],
{
    proof {
        use_type_invariant(cache);
        lemma_themes_by_id_distinct(cache.themes@);
    }
    &cache.themes
}

/// Caching themes keeps, for each id, the last of them with that id, and
/// leaves an id that none of them has as the cache had it.
pub proof fn law_cache_keeps_last_theme_per_id(
    m: Map<Seq<char>, TomlTheme>,
    s: Seq<TomlTheme>,
    id: Seq<char>,
)
    ensures
        forall|k: int|
            0 <= k < s.len() && (#[trigger] s[k]).id@ == id && (forall|j: int|
                k < j < s.len() ==> (#[trigger] s[j]).id@ != id) ==> cached_after(m, s).dom().contains(id)
                && cached_after(m, s)[id] == s[k],
        (forall|j: int| 0 <= j < s.len() ==> (#[trigger] s[j]).id@ != id) ==> (cached_after(
            m,
            s,
        ).dom().contains(id) == m.dom().contains(id) && (m.dom().contains(id) ==> cached_after(m, s)[id]
            == m[id])),
    decreases s.len(),
{
    if s.len() > 0 {
        let p = s.drop_last();
        law_cache_keeps_last_theme_per_id(m, p, id);
        assert forall|k: int|
            0 <= k < s.len() && (#[trigger] s[k]).id@ == id && (forall|j: int|
                k < j < s.len() ==> (#[trigger] s[j]).id@ != id) implies cached_after(m, s).dom().contains(id)
                && cached_after(m, s)[id] == s[k] by {
            if k < s.len() - 1 {
                assert(s[s.len() - 1].id@ != id);
                assert(p[k] == s[k]);
                assert forall|j: int| k < j < p.len() implies (#[trigger] p[j]).id@ != id by {
                    assert(p[j] == s[j]);
                }
            }
        }
        if forall|j: int| 0 <= j < s.len() ==> (#[trigger] s[j]).id@ != id {
            assert(s[s.len() - 1].id@ != id);
            assert forall|j: int| 0 <= j < p.len() implies (#[trigger] p[j]).id@ != id by {
                assert(p[j] == s[j]);
            }
        }
    }
}

/// A setting of the desktop that tells whether it prefers a dark theme,
/// in the order in which they are asked on Linux.
#[derive(Debug, Clone, Copy, PartialEq, Eq, Structural)]
pub enum ThemeProbe {
    /// GNOME's `color-scheme`.
    GnomeColorScheme,
    /// GNOME's `gtk-theme`.
    GtkTheme,
    /// KDE's `ColorScheme`.
    KdeColorScheme,
}

/// What to do after asking a setting: settle on a theme, or ask the next setting.
#[derive(Debug, Clone)]
pub enum ProbeStep {
    Theme(String),
    Ask(ThemeProbe),
}

/// The mathematical value of a probe step.
pub enum ProbeStepView {
    Theme(Seq<char>),
    Ask(ThemeProbe),
}

impl View for ProbeStep {
    type V = ProbeStepView;

    open spec fn view(&self) -> ProbeStepView {
        match self {
            ProbeStep::Theme(t) => ProbeStepView::Theme(t@),
            ProbeStep::Ask(p) => ProbeStepView::Ask(*p),
        }
    }
}

/// The place of a setting in the order in which they are asked.
pub open spec fn probe_rank(p: ThemeProbe) -> int {
    match p {
        ThemeProbe::GnomeColorScheme => 0,
        ThemeProbe::GtkTheme => 1,
        ThemeProbe::KdeColorScheme => 2,
    }
}

/// What the answer of a setting decides, when the command that reads it
/// succeeded with `output` (`None` when it could not run or failed).
///
/// GNOME's `color-scheme`, trimmed and without quotes, settles on dark for
/// `prefer-dark` and light for `prefer-light`. The lowercased `gtk-theme`
/// or KDE `ColorScheme` settles on dark when it mentions `dark`. Otherwise
/// the next setting is asked; after the last one the theme is light.
pub open spec fn linux_probe_step(probe: ThemeProbe, output: Option<Seq<u8>>) -> ProbeStepView {
    match probe {
        ThemeProbe::GnomeColorScheme => match output {
            Some(out) => {
                let scheme = strip_quotes(trim_ws(lossy_utf8(out)));
                if scheme == "prefer-dark"@ {
                    ProbeStepView::Theme("dark"@)
                } else if scheme == "prefer-light"@ {
                    ProbeStepView::Theme("light"@)
                } else {
                    ProbeStepView::Ask(ThemeProbe::GtkTheme)
                }
            },
            None => ProbeStepView::Ask(ThemeProbe::GtkTheme),
        },
        ThemeProbe::GtkTheme => match output {
            Some(out) => {
                let text = lowercase(lossy_utf8(out));
                if seq_contains(text, "dark"@) || seq_contains(text, "adwaita-dark"@) {
                    ProbeStepView::Theme("dark"@)
                } else {
                    ProbeStepView::Ask(ThemeProbe::KdeColorScheme)
                }
            },
            None => ProbeStepView::Ask(ThemeProbe::KdeColorScheme),
        },
        ThemeProbe::KdeColorScheme => match output {
            Some(out) => {
                let text = lowercase(lossy_utf8(out));
                if seq_contains(text, "dark"@) || seq_contains(text, "breeze dark"@) {
                    ProbeStepView::Theme("dark"@)
                } else {
                    ProbeStepView::Theme("light"@)
                }
            },
            None => ProbeStepView::Theme("light"@),
        },
    }
}

fn owned(s: &str) -> (res: String)
    ensures
        res@ == s@,
{
    s.to_owned()
}

/// What the answer of a Linux desktop setting decides: see
/// `linux_probe_step`. Every theme it settles on is `dark` or `light`, and
/// it only ever moves on to a later setting.
pub fn linux_theme_step(probe: ThemeProbe, output: Option<Vec<u8>>) -> (res: ProbeStep)
    ensures
        res@ == linux_probe_step(
            probe,
            match output {
                Some(o) => Some(o@),
                None => None,
            },
        ),
        res@ matches ProbeStepView::Theme(t) ==> t == "dark"@ || t == "light"@,
        res@ matches ProbeStepView::Ask(next) ==> probe_rank(next) > probe_rank(probe),
{
    match probe {
        ThemeProbe::GnomeColorScheme => match output {
            Some(out) => {
                let text = utf8_lossy(out.as_slice());
                let scheme = remove_quotes(&trim_chars(&chars_of(text.as_str())));
                if chars_eq(&scheme, &chars_of("prefer-dark")) {
                    ProbeStep::Theme(owned("dark"))
                } else if chars_eq(&scheme, &chars_of("prefer-light")) {
                    ProbeStep::Theme(owned("light"))
                } else {
                    ProbeStep::Ask(ThemeProbe::GtkTheme)
                }
            },
            None => ProbeStep::Ask(ThemeProbe::GtkTheme),
        },
        ThemeProbe::GtkTheme => match output {
            Some(out) => {
                let text = utf8_lossy(out.as_slice());
                let lower = chars_of(to_lowercase(text.as_str()).as_str());
                if contains_chars(&lower, &chars_of("dark")) || contains_chars(&lower, &chars_of("adwaita-dark")) {
                    ProbeStep::Theme(owned("dark"))
                } else {
                    ProbeStep::Ask(ThemeProbe::KdeColorScheme)
                }
            },
            None => ProbeStep::Ask(ThemeProbe::KdeColorScheme),
        },
        ThemeProbe::KdeColorScheme => match output {
            Some(out) => {
                let text = utf8_lossy(out.as_slice());
                let lower = chars_of(to_lowercase(text.as_str()).as_str());
                if contains_chars(&lower, &chars_of("dark")) || contains_chars(&lower, &chars_of("breeze dark")) {
                    ProbeStep::Theme(owned("dark"))
                } else {
                    ProbeStep::Theme(owned("light"))
                }
            },
            None => ProbeStep::Theme(owned("light")),
        },
    }
}

/// The theme macOS prefers: dark when `defaults read -g AppleInterfaceStyle`
/// succeeded with an answer that is `dark` up to white space around it and
/// ASCII case, light otherwise.
pub fn macos_theme(output: Option<Vec<u8>>) -> (res: String)
    ensures
        res@ == match output {
            Some(o) => if eq_ignoring_ascii_case(trim_ws(lossy_utf8(o@)), "dark"@) {
                "dark"@
            } else {
                "light"@
            },
            None => "light"@,
        },
{
    match output {
        Some(out) => {
            let text = utf8_lossy(out.as_slice());
            let answer = trim_chars(&chars_of(text.as_str()));
            if eq_ignore_ascii_case_chars(&answer, &chars_of("dark")) {
                owned("dark")
            } else {
                owned("light")
            }
        },
        None => owned("light"),
    }
}

/// The theme Windows prefers: dark when the registry query of
/// `AppsUseLightTheme` succeeded with an answer that mentions `0x0`, light
/// otherwise.
pub fn windows_theme(output: Option<Vec<u8>>) -> (res: String)
    ensures
        res@ == match output {
            Some(o) => if seq_contains(lossy_utf8(o@), "0x0"@) {
                "dark"@
            } else {
                "light"@
            },
            None => "light"@,
        },
{
    match output {
        Some(out) => {
            let text = utf8_lossy(out.as_slice());
            if contains_chars(&chars_of(text.as_str()), &chars_of("0x0")) {
                owned("dark")
            } else {
                owned("light")
            }
        },
        None => owned("light"),
    }
}

/// A directory entry is read as a theme file when it is a file whose
/// extension is `toml`.
pub fn is_theme_file(is_file: bool, extension: Option<&str>) -> (res: bool)
    ensures
        res == (is_file && match extension {
            Some(e) => e@ == "toml"@,
            None => false,
        }),
{
    if !is_file {
        return false;
    }
    match extension {
        Some(e) => str_eq(e, "toml"),
        None => false,
    }
}

/// Adds the themes of one theme file to those loaded so far, or hands back
/// the error that loading it gave, leaving the loaded themes as they are.
pub fn absorb_theme_file(all: &mut Vec<TomlTheme>, loaded: Result<Vec<TomlTheme>, String>) -> (res: Option<String>)
    ensures
        match loaded {
            Ok(themes) => final(all)@ == old(all)@ + themes@ && res is None,
            Err(e) => final(all)@ == old(all)@ && res == Some(e),
        },
{
    match loaded {
        Ok(themes) => {
            let ghost start = all@;
            let ghost added = themes@;
            for theme in it: themes.into_iter()
                invariant
                    added == it.seq(),
                    all@ == start + added.take(it.index()),
            {
                proof {
                    assert(added.take(it.index() + 1) == added.take(it.index()).push(theme));
                    assert(start + added.take(it.index() + 1) == (start + added.take(it.index())).push(theme));
                }
                all.push(theme);
            }
            assert(added.take(added.len() as int) == added);
            None
        },
        Err(e) => Some(e),
    }
}

/// The ids of the themes of `s`.
pub open spec fn theme_ids(s: Seq<TomlTheme>) -> Set<Seq<char>> {
    Set::new(|id: Seq<char>| exists|k: int| 0 <= k < s.len() && (#[trigger] s[k]).id@ == id)
}

proof fn lemma_theme_ids_push(s: Seq<TomlTheme>)
    requires
        s.len() > 0,
    ensures
        theme_ids(s) == theme_ids(s.drop_last()).insert(s.last().id@),
{
    let p = s.drop_last();
    assert forall|id: Seq<char>| theme_ids(s).contains(id) <==> theme_ids(p).insert(s.last().id@).contains(id) by {
        if theme_ids(s).contains(id) && id != s.last().id@ {
            let k = choose|k: int| 0 <= k < s.len() && (#[trigger] s[k]).id@ == id;
            assert(p[k] == s[k]);
        }
        if theme_ids(p).contains(id) {
            let k = choose|k: int| 0 <= k < p.len() && (#[trigger] p[k]).id@ == id;
            assert(p[k] == s[k]);
        }
        if id == s.last().id@ {
            assert(s[s.len() - 1].id@ == id);
        }
    }
    assert(theme_ids(s) =~= theme_ids(p).insert(s.last().id@));
}

/// Caching themes adds exactly their ids to the ids the cache had.
pub proof fn law_cached_ids(m: Map<Seq<char>, TomlTheme>, s: Seq<TomlTheme>)
    ensures
        cached_after(m, s).dom() == m.dom().union(theme_ids(s)),
    decreases s.len(),
{
    if s.len() == 0 {
        assert(theme_ids(s) =~= Set::<Seq<char>>::empty());
        assert(m.dom().union(theme_ids(s)) =~= m.dom());
    } else {
        law_cached_ids(m, s.drop_last());
        lemma_theme_ids_push(s);
        assert(cached_after(m, s).dom() =~= m.dom().union(theme_ids(s)));
    }
}

proof fn lemma_last_with_id(s: Seq<TomlTheme>, id: Seq<char>)
    requires
        theme_ids(s).contains(id),
    ensures
        exists|k: int|
            0 <= k < s.len() && (#[trigger] s[k]).id@ == id && forall|j: int| k < j < s.len() ==> (#[trigger] s[j]).id@ != id,
    decreases s.len(),
{
    if s.last().id@ == id {
        assert(s[s.len() - 1].id@ == id);
    } else {
        let p = s.drop_last();
        let k0 = choose|k: int| 0 <= k < s.len() && (#[trigger] s[k]).id@ == id;
        assert(p[k0] == s[k0]);
        assert(theme_ids(p).contains(id));
        lemma_last_with_id(p, id);
        let k = choose|k: int|
            0 <= k < p.len() && (#[trigger] p[k]).id@ == id && forall|j: int| k < j < p.len() ==> (#[trigger] p[j]).id@ != id;
        assert(s[k] == p[k]);
        assert forall|j: int| k < j < s.len() implies (#[trigger] s[j]).id@ != id by {
            if j < s.len() - 1 {
                assert(p[j] == s[j]);
            }
        }
    }
}

/// After caching `themes` into an empty cache, a listing with the
/// guarantees of `get_cached_themes` holds one theme per distinct id of
/// `themes`, no id twice, and each is the last theme of `themes` with its id.
pub proof fn law_listing_after_caching(themes: Seq<TomlTheme>, listed: Seq<TomlTheme>)
    requires
        ids_distinct(listed),
        listed.len() == cached_after(Map::empty(), themes).dom().len(),
        forall|k: int|
            0 <= k < listed.len() ==> cached_after(Map::empty(), themes).dom().contains((#[trigger] listed[k]).id@)
                && cached_after(Map::empty(), themes)[listed[k].id@] == listed[k],
    ensures
        listed.len() == theme_ids(themes).len(),
        forall|k: int|
            #![trigger listed[k]]
            0 <= k < listed.len() ==> exists|t: int|
                #![trigger themes[t]]
                0 <= t < themes.len() && themes[t] == listed[k] && forall|j: int|
                    #![trigger themes[j]]
                    t < j < themes.len() ==> themes[j].id@ != listed[k].id@,
{
    let m = Map::<Seq<char>, TomlTheme>::empty();
    law_cached_ids(m, themes);
    assert(m.dom().union(theme_ids(themes)) =~= theme_ids(themes));
    assert forall|k: int| #![trigger listed[k]] 0 <= k < listed.len() implies exists|t: int|
        #![trigger themes[t]]
        0 <= t < themes.len() && themes[t] == listed[k] && forall|j: int|
            #![trigger themes[j]]
            t < j < themes.len() ==> themes[j].id@ != listed[k].id@ by {
        let id = listed[k].id@;
        lemma_last_with_id(themes, id);
        let t = choose|t: int|
            0 <= t < themes.len() && (#[trigger] themes[t]).id@ == id && forall|j: int|
                t < j < themes.len() ==> (#[trigger] themes[j]).id@ != id;
        law_cache_keeps_last_theme_per_id(m, themes, id);
        assert(themes[t] == listed[k]);
    }
}

/// A text that holds `outer` holds every part of it: here `inner`, found
/// in `outer` at `at`.
proof fn lemma_contains_within(text: Seq<char>, outer: Seq<char>, inner: Seq<char>, at: int)
    requires
        seq_contains(text, outer),
        0 <= at,
        at + inner.len() <= outer.len(),
        outer.subrange(at, at + inner.len()) == inner,
    ensures
        seq_contains(text, inner),
{
    let i = choose|i: int| 0 <= i && i + outer.len() <= text.len() && #[trigger] text.subrange(i, i + outer.len()) == outer;
    assert(text.subrange(i + at, i + at + inner.len()) =~= inner);
}

/// The GTK theme and the KDE colour scheme settle on dark exactly when
/// their answer, lowercased, mentions `dark`. Otherwise a GTK theme
/// passes on to the KDE colour scheme, and a KDE colour scheme settles on
/// light; a setting that could not be read does the same.
pub proof fn law_theme_names_with_dark_are_dark(out: Seq<u8>)
    ensures
        linux_probe_step(ThemeProbe::GtkTheme, Some(out)) == if seq_contains(lowercase(lossy_utf8(out)), "dark"@) {
            ProbeStepView::Theme("dark"@)
        } else {
            ProbeStepView::Ask(ThemeProbe::KdeColorScheme)
        },
        linux_probe_step(ThemeProbe::KdeColorScheme, Some(out)) == if seq_contains(lowercase(lossy_utf8(out)), "dark"@) {
            ProbeStepView::Theme("dark"@)
        } else {
            ProbeStepView::Theme("light"@)
        },
        linux_probe_step(ThemeProbe::GtkTheme, None) == ProbeStepView::Ask(ThemeProbe::KdeColorScheme),
        linux_probe_step(ThemeProbe::KdeColorScheme, None) == ProbeStepView::Theme("light"@),
{
    let text = lowercase(lossy_utf8(out));
    reveal_strlit("dark");
    reveal_strlit("adwaita-dark");
    reveal_strlit("breeze dark");
    if seq_contains(text, "adwaita-dark"@) {
        assert("adwaita-dark"@.subrange(8, 12) =~= "dark"@);
        lemma_contains_within(text, "adwaita-dark"@, "dark"@, 8);
    }
    if seq_contains(text, "breeze dark"@) {
        assert("breeze dark"@.subrange(7, 11) =~= "dark"@);
        lemma_contains_within(text, "breeze dark"@, "dark"@, 7);
    }
}

} // verus!
