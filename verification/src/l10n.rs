//! Choosing the language of the launcher among the locales that its translations
//! provide.
use vstd::prelude::*;

use crate::text::{str_eq};

verus! {

/// A locale: a language, optionally a script and a region, and variants, each given by
/// its subtag.
#[derive(Debug)]
pub struct Locale {
    pub language: String,
    pub script: Option<String>,
    pub region: Option<String>,
    pub variants: Vec<String>,
}

/// A locale as plain values.
pub type LocaleView = (Seq<char>, Option<Seq<char>>, Option<Seq<char>>, Seq<Seq<char>>);

/// The view of an optional string.
pub open spec fn opt_view(s: Option<String>) -> Option<Seq<char>> {
    match s {
        Some(t) => Some(t@),
        None => None,
    }
}

impl Locale {
    pub open spec fn view(&self) -> LocaleView {
        (self.language@, opt_view(self.script), opt_view(self.region), self.variants@.map_values(|v: String| v@))
    }
}

/// The views of the locales that translations are available for.
pub open spec fn available_view(a: Seq<(Locale, String)>) -> Seq<LocaleView> {
    a.map_values(|e: (Locale, String)| e.0.view())
}

/// The views of locales.
pub open spec fn locales_view(a: Seq<Locale>) -> Seq<LocaleView> {
    a.map_values(|l: Locale| l.view())
}

/// A locale without its region.
pub open spec fn without_region(l: LocaleView) -> LocaleView {
    (l.0, l.1, None, l.3)
}

/// The first preferred locale that is available, either as it is or, failing that,
/// without its region.
pub open spec fn spec_select_locale(available: Seq<LocaleView>, preferred: Seq<LocaleView>) -> Option<LocaleView>
    decreases preferred.len(),
{
    if preferred.len() == 0 {
        None
    } else if available.contains(preferred[0]) {
        Some(preferred[0])
    } else if available.contains(without_region(preferred[0])) {
        Some(without_region(preferred[0]))
    } else {
        spec_select_locale(available, preferred.drop_first())
    }
}

/// The locale chosen is available, and it comes from the first preferred locale of which
/// either the locale itself or its region-less form is available: the locale itself when
/// it is available (its region kept), its region-less form only when it is not.
pub proof fn lemma_select_locale(available: Seq<LocaleView>, preferred: Seq<LocaleView>, i: int)
    requires
        0 <= i < preferred.len(),
        forall|j: int| 0 <= j < i ==> !available.contains(#[trigger] preferred[j]) && !available.contains(
            without_region(preferred[j]),
        ),
    ensures
        available.contains(preferred[i]) ==> spec_select_locale(available, preferred) == Some(preferred[i]),
        !available.contains(preferred[i]) && available.contains(without_region(preferred[i])) ==> spec_select_locale(
            available,
            preferred,
        ) == Some(without_region(preferred[i])),
        spec_select_locale(available, preferred) matches Some(l) ==> available.contains(l),
    decreases i,
{
    lemma_selected_available(available, preferred);
    if i > 0 {
        assert(!available.contains(preferred[0]) && !available.contains(without_region(preferred[0])));
        let rest = preferred.drop_first();
        assert forall|j: int| 0 <= j < i - 1 implies !available.contains(#[trigger] rest[j]) && !available.contains(
            without_region(rest[j]),
        ) by {
            assert(rest[j] == preferred[j + 1]);
        }
        assert(rest[i - 1] == preferred[i]);
        lemma_select_locale(available, rest, i - 1);
    }
}

/// Whatever locale is chosen is available.
proof fn lemma_selected_available(available: Seq<LocaleView>, preferred: Seq<LocaleView>)
    ensures
        spec_select_locale(available, preferred) matches Some(l) ==> available.contains(l),
    decreases preferred.len(),
{
    if preferred.len() > 0 {
        lemma_selected_available(available, preferred.drop_first());
    }
}

fn opt_eq(a: &Option<String>, b: &Option<String>) -> (r: bool)
    ensures
        r == (opt_view(*a) == opt_view(*b)),
{
    match (a, b) {
        (Some(x), Some(y)) => str_eq(x.as_str(), y.as_str()),
        (None, None) => true,
        _ => false,
    }
}

fn locale_eq(a: &Locale, b: &Locale, ignore_b_region: bool) -> (r: bool)
    ensures
        r == (a.view() == (if ignore_b_region {
            without_region(b.view())
        } else {
            b.view()
        })),
{
    if !str_eq(a.language.as_str(), b.language.as_str()) || !opt_eq(&a.script, &b.script) {
        return false;
    }
    if ignore_b_region {
        if a.region.is_some() {
            return false;
        }
    } else if !opt_eq(&a.region, &b.region) {
        return false;
    }
    if a.variants.len() != b.variants.len() {
        assert(a.view().3.len() != b.view().3.len());
        return false;
    }
    let mut i: usize = 0;
    while i < a.variants.len()
        invariant
            i <= a.variants@.len(),
            a.variants@.len() == b.variants@.len(),
            forall|j: int| 0 <= j < i ==> a.variants@[j]@ == b.variants@[j]@,
        decreases a.variants.len() - i,
    {
        if !str_eq(a.variants[i].as_str(), b.variants[i].as_str()) {
            assert(a.view().3[i as int] != b.view().3[i as int]);
            return false;
        }
        i += 1;
    }
    assert(a.view().3 =~= b.view().3);
    true
}

fn contains_locale(available: &[(Locale, String)], l: &Locale, ignore_region: bool) -> (r: bool)
    ensures
        r == available_view(available@).contains(
            if ignore_region {
                without_region(l.view())
            } else {
                l.view()
            },
        ),
{
    let ghost target = if ignore_region {
        without_region(l.view())
    } else {
        l.view()
    };
    let mut i: usize = 0;
    while i < available.len()
        invariant
            i <= available@.len(),
            target == (if ignore_region {
                without_region(l.view())
            } else {
                l.view()
            }),
            forall|j: int| 0 <= j < i ==> available_view(available@)[j] != target,
        decreases available.len() - i,
    {
        if locale_eq(&available[i].0, l, ignore_region) {
            assert(available_view(available@)[i as int] == target);
            return true;
        }
        i += 1;
    }
    false
}

fn copy_locale(l: &Locale, keep_region: bool) -> (r: Locale)
    ensures
        r.view() == (if keep_region {
            l.view()
        } else {
            without_region(l.view())
        }),
{
    let mut variants: Vec<String> = Vec::new();
    let mut i: usize = 0;
    while i < l.variants.len()
        invariant
            i <= l.variants@.len(),
            variants@.len() == i,
            forall|j: int| 0 <= j < i ==> variants@[j]@ == l.variants@[j]@,
        decreases l.variants.len() - i,
    {
        variants.push(l.variants[i].clone());
        i += 1;
    }
    let script = match &l.script {
        Some(s) => Some(s.clone()),
        None => None,
    };
    let region = if keep_region {
        match &l.region {
            Some(s) => Some(s.clone()),
            None => None,
        }
    } else {
        None
    };
    let r = Locale { language: l.language.clone(), script, region, variants };
    assert(r.view().3 =~= l.view().3);
    r
}

/// The locale to use: the first preferred locale that is available, either as it is or,
/// failing that, without its region.
pub fn select_locale(available: &[(Locale, String)], preferred: &[Locale]) -> (r: Option<Locale>)
    ensures
        match r {
            Some(l) => spec_select_locale(available_view(available@), locales_view(preferred@)) == Some(l.view()),
            None => spec_select_locale(available_view(available@), locales_view(preferred@)) is None,
        },
{
    let ghost av = available_view(available@);
    let mut i: usize = 0;
    assert(locales_view(preferred@).skip(0) =~= locales_view(preferred@));
    while i < preferred.len()
        invariant
            i <= preferred@.len(),
            av == available_view(available@),
            spec_select_locale(av, locales_view(preferred@)) == spec_select_locale(av, locales_view(preferred@).skip(i as int)),
        decreases preferred.len() - i,
    {
        let ghost rest = locales_view(preferred@).skip(i as int);
        assert(rest[0] == preferred@[i as int].view());
        assert(rest.drop_first() =~= locales_view(preferred@).skip(i + 1));
        if contains_locale(available, &preferred[i], false) {
            return Some(copy_locale(&preferred[i], true));
        }
        if contains_locale(available, &preferred[i], true) {
            return Some(copy_locale(&preferred[i], false));
        }
        i += 1;
    }
    None
}

/// Loads translations from a directory.
pub struct DirectoryLoader {
    base_path: String,
}

impl DirectoryLoader {
    /// A loader for the directory at `base_path`.
    pub fn new(base_path: &str) -> (r: Self)
        ensures
            r.base()@ == base_path@,
    {
        DirectoryLoader { base_path: base_path.to_string() }
    }

    /// The directory.
    pub closed spec fn base(&self) -> String {
        self.base_path
    }

    /// The directory.
    pub fn base_path(&self) -> (r: &str)
        ensures
            r@ == self.base()@,
    {
        self.base_path.as_str()
    }
}

} // verus!
