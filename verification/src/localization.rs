//! Key-value localization store with culture fallback: a lookup tries the
//! current full culture code first (e.g. "en-US"), then the top-level code
//! ("en"), then any other culture, and finally returns the key itself.  The
//! exact fallback order is pinned by the specification functions below.

use vstd::prelude::*;

verus! {

use vstd::string::StrSliceExecFns;
use vstd::string::StringExecFns;

/// Key-value pair for localizations.
#[derive(Debug)]
pub struct LocalePair {
    pub key: String,
    pub value: String,
}

/// Resource which contains all localizations: per culture code, an ordered
/// list of key-value pairs, plus the currently selected culture.
#[derive(Debug)]
pub struct Localization {
    /// The list of localizations.
    pub languages: Vec<(String, Vec<LocalePair>)>,
    /// The full culture code of the current localization (e.g. en-US).
    pub culture_full: String,
    /// The top-level culture code of the current localization (e.g. en).
    pub culture_top: String,
}

/// View of an optional string as an optional character sequence.
pub open spec fn opt_view(o: Option<String>) -> Option<Seq<char>> {
    match o {
        Some(s) => Some(s@),
        None => None,
    }
}

/// Index of the first '-' among the first `n` characters, or `n` if none.
pub open spec fn dash_prefix_len(c: Seq<char>, n: int) -> int
    decreases n,
{
    if n <= 0 {
        0
    } else if dash_prefix_len(c, n - 1) < n - 1 {
        dash_prefix_len(c, n - 1)
    } else if c[n - 1] == '-' {
        n - 1
    } else {
        n
    }
}

/// The top-level culture code: everything before the first '-', or the whole
/// code when it has no '-'.
pub open spec fn top_of(c: Seq<char>) -> Seq<char> {
    c.subrange(0, dash_prefix_len(c, c.len() as int))
}

/// Value of the first pair matching `key` among the first `n` pairs.
pub open spec fn first_value_upto(pairs: Seq<LocalePair>, key: Seq<char>, n: int) -> Option<
    Seq<char>,
>
    decreases n,
{
    if n <= 0 {
        None
    } else {
        match first_value_upto(pairs, key, n - 1) {
            Some(v) => Some(v),
            None => if pairs[n - 1].key@ == key {
                Some(pairs[n - 1].value@)
            } else {
                None
            },
        }
    }
}

/// Value of the last pair matching `key` among the first `n` pairs.
pub open spec fn last_value_upto(pairs: Seq<LocalePair>, key: Seq<char>, n: int) -> Option<
    Seq<char>,
>
    decreases n,
{
    if n <= 0 {
        None
    } else if pairs[n - 1].key@ == key {
        Some(pairs[n - 1].value@)
    } else {
        last_value_upto(pairs, key, n - 1)
    }
}

/// Full-culture lookup over the first `n` languages: the first language
/// whose code equals the full culture and which contains the key supplies
/// the first matching value.
pub open spec fn full_upto(
    langs: Seq<(String, Vec<LocalePair>)>,
    full: Seq<char>,
    key: Seq<char>,
    n: int,
) -> Option<Seq<char>>
    decreases n,
{
    if n <= 0 {
        None
    } else {
        match full_upto(langs, full, key, n - 1) {
            Some(v) => Some(v),
            None => if langs[n - 1].0@ == full {
                first_value_upto(langs[n - 1].1@, key, langs[n - 1].1@.len() as int)
            } else {
                None
            },
        }
    }
}

/// Top-culture lookup over the first `n` languages: languages equal to the
/// full culture are skipped; among the remaining ones with the top-level
/// code, the last matching value wins.
pub open spec fn top_upto(
    langs: Seq<(String, Vec<LocalePair>)>,
    full: Seq<char>,
    top: Seq<char>,
    key: Seq<char>,
    n: int,
) -> Option<Seq<char>>
    decreases n,
{
    if n <= 0 {
        None
    } else {
        let prev = top_upto(langs, full, top, key, n - 1);
        if langs[n - 1].0@ != full && langs[n - 1].0@ == top {
            match last_value_upto(langs[n - 1].1@, key, langs[n - 1].1@.len() as int) {
                Some(v) => Some(v),
                None => prev,
            }
        } else {
            prev
        }
    }
}

/// Default-culture lookup over the first `n` languages: the first language
/// that is neither the full nor the top culture and contains the key
/// supplies its last matching value.
pub open spec fn default_upto(
    langs: Seq<(String, Vec<LocalePair>)>,
    full: Seq<char>,
    top: Seq<char>,
    key: Seq<char>,
    n: int,
) -> Option<Seq<char>>
    decreases n,
{
    if n <= 0 {
        None
    } else {
        let prev = default_upto(langs, full, top, key, n - 1);
        match prev {
            Some(v) => Some(v),
            None => if langs[n - 1].0@ != full && langs[n - 1].0@ != top {
                last_value_upto(langs[n - 1].1@, key, langs[n - 1].1@.len() as int)
            } else {
                None
            },
        }
    }
}

/// The value `get` returns: full-culture match first, then top-level
/// culture, then any other culture, and the key itself when nothing
/// matches.
pub open spec fn get_spec(
    langs: Seq<(String, Vec<LocalePair>)>,
    full: Seq<char>,
    top: Seq<char>,
    key: Seq<char>,
) -> Seq<char> {
    match full_upto(langs, full, key, langs.len() as int) {
        Some(v) => v,
        None => match top_upto(langs, full, top, key, langs.len() as int) {
            Some(v) => v,
            None => match default_upto(langs, full, top, key, langs.len() as int) {
                Some(v) => v,
                None => key,
            },
        },
    }
}

/// A found dash position persists as the scan window grows.
proof fn lemma_dash_persist(c: Seq<char>, n: int, m: int)
    requires
        0 <= n <= m,
        dash_prefix_len(c, n) < n,
    ensures
        dash_prefix_len(c, m) == dash_prefix_len(c, n),
    decreases m,
{
    if m > n {
        lemma_dash_persist(c, n, m - 1);
    }
}

/// A found full-culture match persists as the scan window grows.
proof fn lemma_full_persist(
    langs: Seq<(String, Vec<LocalePair>)>,
    full: Seq<char>,
    key: Seq<char>,
    n: int,
    m: int,
)
    requires
        0 <= n <= m,
        full_upto(langs, full, key, n) is Some,
    ensures
        full_upto(langs, full, key, m) == full_upto(langs, full, key, n),
    decreases m,
{
    if m > n {
        lemma_full_persist(langs, full, key, n, m - 1);
    }
}

/// The top-level prefix of a culture code: the characters before the first
/// '-', or the whole code when it has none.
fn top_prefix(culture: &String) -> (r: String)
    ensures
        r@ == top_of(culture@),
{
    let s: &str = culture.as_str();
    let n: usize = s.unicode_len();
    let mut i: usize = 0;
    while i < n
        invariant
            i <= n,
            n == culture@.len(),
            s@ == culture@,
            dash_prefix_len(culture@, i as int) == i,
        decreases n - i,
    {
        let c: char = s.get_char(i);
        if c == '-' {
            proof {
                assert(dash_prefix_len(culture@, i + 1) == i);
                lemma_dash_persist(culture@, i + 1, n as int);
            }
            let sub: &str = s.substring_char(0, i);
            return sub.to_owned();
        }
        i = i + 1;
    }
    proof {
        assert(dash_prefix_len(culture@, n as int) == n);
        assert(culture@.subrange(0, n as int) =~= culture@);
    }
    culture.clone()
}

/// Value of the first pair matching the key, scanning in order.
fn scan_first(pairs: &Vec<LocalePair>, key: &String) -> (r: Option<String>)
    ensures
        opt_view(r) == first_value_upto(pairs@, key@, pairs@.len() as int),
{
    let n: usize = pairs.len();
    let mut i: usize = 0;
    while i < n
        invariant
            i <= n,
            n == pairs@.len(),
            first_value_upto(pairs@, key@, i as int) is None,
        decreases n - i,
    {
        if pairs[i].key == *key {
            proof {
                lemma_first_value_persist(pairs@, key@, i + 1, n as int);
            }
            return Some(pairs[i].value.clone());
        }
        i = i + 1;
    }
    None
}

/// A found first-value match persists as the scan window grows.
proof fn lemma_first_value_persist(pairs: Seq<LocalePair>, key: Seq<char>, n: int, m: int)
    requires
        0 <= n <= m,
        first_value_upto(pairs, key, n) is Some,
    ensures
        first_value_upto(pairs, key, m) == first_value_upto(pairs, key, n),
    decreases m,
{
    if m > n {
        lemma_first_value_persist(pairs, key, n, m - 1);
    }
}

/// Value of the last pair matching the key, scanning in order.
fn scan_last(pairs: &Vec<LocalePair>, key: &String) -> (r: Option<String>)
    ensures
        opt_view(r) == last_value_upto(pairs@, key@, pairs@.len() as int),
{
    let n: usize = pairs.len();
    let mut i: usize = 0;
    let mut found: Option<String> = None;
    while i < n
        invariant
            i <= n,
            n == pairs@.len(),
            opt_view(found) == last_value_upto(pairs@, key@, i as int),
        decreases n - i,
    {
        if pairs[i].key == *key {
            found = Some(pairs[i].value.clone());
        }
        i = i + 1;
    }
    found
}

impl Localization {
    /// Creates a new localization store for the given culture code.
    pub fn new(culture: String) -> (r: Localization)
        ensures
            r.languages@.len() == 0,
            r.culture_full@ == culture@,
            r.culture_top@ == top_of(culture@),
    {
        let top = top_prefix(&culture);
        Localization { languages: Vec::new(), culture_full: culture, culture_top: top }
    }

    /// Sets the current culture code; the top-level code follows it.
    pub fn set_culture(&mut self, culture: String)
        ensures
            final(self).languages == old(self).languages,
            final(self).culture_full@ == culture@,
            final(self).culture_top@ == top_of(culture@),
    {
        let top = top_prefix(&culture);
        self.culture_full = culture;
        self.culture_top = top;
    }

    /// Gets the current culture code (e.g. en-US).
    pub fn get_culture(&self) -> (r: String)
        ensures
            r@ == self.culture_full@,
    {
        self.culture_full.clone()
    }

    /// Gets the top-level culture code (e.g. en for en-US).
    pub fn get_culture_top(&self) -> (r: String)
        ensures
            r@ == self.culture_top@,
    {
        self.culture_top.clone()
    }

    /// Adds a localization pair: appended to the first language with the
    /// given culture code, or to a new language list at the end when that
    /// culture is not present yet.
    pub fn set(&mut self, culture: &String, key: String, value: String)
        ensures
            final(self).culture_full == old(self).culture_full,
            final(self).culture_top == old(self).culture_top,
            forall|i: int|
                (0 <= i < old(self).languages@.len() && old(self).languages@[i].0@ == culture@
                    && (forall|t: int|
                    0 <= t < i ==> old(self).languages@[t].0@ != culture@)) ==> {
                    &&& final(self).languages@.len() == old(self).languages@.len()
                    &&& (forall|t: int|
                        0 <= t < old(self).languages@.len() && t != i
                            ==> final(self).languages@[t] == old(self).languages@[t])
                    &&& final(self).languages@[i].0 == old(self).languages@[i].0
                    &&& final(self).languages@[i].1@ == old(self).languages@[i].1@.push(
                        LocalePair { key, value },
                    )
                },
            (forall|t: int|
                0 <= t < old(self).languages@.len() ==> old(self).languages@[t].0@
                    != culture@) ==> {
                &&& final(self).languages@.len() == old(self).languages@.len() + 1
                &&& (forall|t: int|
                    0 <= t < old(self).languages@.len() ==> final(self).languages@[t] == old(
                        self,
                    ).languages@[t])
                &&& final(self).languages@[old(self).languages@.len() as int].0@ == culture@
                &&& final(self).languages@[old(self).languages@.len() as int].1@.len() == 1
                &&& final(self).languages@[old(self).languages@.len() as int].1@[0]
                    == (LocalePair { key, value })
            },
    {
        let n: usize = self.languages.len();
        let mut i: usize = 0;
        while i < n
            invariant
                i <= n,
                n == self.languages@.len(),
                *self == *old(self),
                forall|t: int| 0 <= t < i ==> self.languages@[t].0@ != culture@,
            decreases n - i,
        {
            if self.languages[i].0 == *culture {
                let entry = &mut self.languages[i];
                entry.1.push(LocalePair { key, value });
                return;
            }
            i = i + 1;
        }
        let mut pairs: Vec<LocalePair> = Vec::new();
        pairs.push(LocalePair { key, value });
        self.languages.push((culture.clone(), pairs));
    }

    /// Gets a localization in the current culture, falling back to the
    /// top-level culture and then to any other culture, in that order; when
    /// nothing matches, the key itself is returned.
    pub fn get(&self, key: &String) -> (r: String)
        ensures
            r@ == get_spec(self.languages@, self.culture_full@, self.culture_top@, key@),
    {
        let n: usize = self.languages.len();
        let mut top_match: Option<String> = None;
        let mut default_match: Option<String> = None;
        let mut i: usize = 0;
        while i < n
            invariant
                i <= n,
                n == self.languages@.len(),
                full_upto(self.languages@, self.culture_full@, key@, i as int) is None,
                opt_view(top_match) == top_upto(
                    self.languages@,
                    self.culture_full@,
                    self.culture_top@,
                    key@,
                    i as int,
                ),
                opt_view(default_match) == default_upto(
                    self.languages@,
                    self.culture_full@,
                    self.culture_top@,
                    key@,
                    i as int,
                ),
            decreases n - i,
        {
            if self.languages[i].0 == self.culture_full {
                let m = scan_first(&self.languages[i].1, key);
                match m {
                    Some(v) => {
                        proof {
                            assert(full_upto(self.languages@, self.culture_full@, key@, i + 1)
                                == Some(v@));
                            lemma_full_persist(
                                self.languages@,
                                self.culture_full@,
                                key@,
                                i + 1,
                                n as int,
                            );
                        }
                        return v;
                    },
                    None => {},
                }
            } else if self.languages[i].0 == self.culture_top {
                let m = scan_last(&self.languages[i].1, key);
                match m {
                    Some(v) => {
                        top_match = Some(v);
                    },
                    None => {},
                }
            } else if default_match.is_none() {
                let m = scan_last(&self.languages[i].1, key);
                match m {
                    Some(v) => {
                        default_match = Some(v);
                    },
                    None => {},
                }
            }
            i = i + 1;
        }
        match top_match {
            Some(s) => {
                return s;
            },
            None => {},
        }
        match default_match {
            Some(s) => {
                return s;
            },
            None => {},
        }
        key.clone()
    }

    /// Gets a localization in the selected culture, without any fallback.
    pub fn get_in(&self, culture: &String, key: &String) -> (r: Option<String>)
        ensures
            opt_view(r) == full_upto(
                self.languages@,
                culture@,
                key@,
                self.languages@.len() as int,
            ),
    {
        let n: usize = self.languages.len();
        let mut i: usize = 0;
        while i < n
            invariant
                i <= n,
                n == self.languages@.len(),
                full_upto(self.languages@, culture@, key@, i as int) is None,
            decreases n - i,
        {
            if self.languages[i].0 == *culture {
                let m = scan_first(&self.languages[i].1, key);
                match m {
                    Some(v) => {
                        proof {
                            assert(full_upto(self.languages@, culture@, key@, i + 1)
                                == Some(v@));
                            lemma_full_persist(self.languages@, culture@, key@, i + 1, n as int);
                        }
                        return Some(v);
                    },
                    None => {},
                }
            }
            i = i + 1;
        }
        None
    }
}

} // verus!
