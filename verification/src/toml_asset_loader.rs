//! Extraction of entity-description data from a parsed TOML document.  The
//! document is modelled as a plain tree of strings, arrays and tables; the
//! embedding application parses the on-disk text with its TOML library and
//! converts the parsed value into this model, while the extraction rules
//! (which fields are required, which failures abort, which entries are
//! skipped) live here with exact contracts.

use vstd::prelude::*;

verus! {

use vstd::string::StringExecFns;

/// A TOML value reduced to what the extraction reads: strings, arrays,
/// tables (ordered key-value lists with unique keys), and everything else.
#[derive(Debug)]
pub enum TomlNode {
    Str(String),
    Array(Vec<TomlNode>),
    Table(Vec<(String, TomlNode)>),
    Other,
}

/// A localization entry of an entity description.
#[derive(Debug)]
pub struct TomlAssetLocalizationEntry {
    pub key: String,
    pub value: String,
}

/// The localization block of one culture.
#[derive(Debug)]
pub struct TomlAssetLocalization {
    pub culture: String,
    pub entries: Vec<TomlAssetLocalizationEntry>,
}

/// The display block of an entity description.
#[derive(Debug, Default)]
pub struct TomlAssetDisplay {
    pub title: String,
    pub description: String,
}

/// Errors of entity-description loading.
#[derive(Debug, PartialEq)]
#[non_exhaustive]
pub enum TomlAssetLoaderError {
    /// The underlying byte source could not be read; carries the reader's
    /// message.
    Io(String),
    /// The document text did not parse as TOML; carries the parser's
    /// message.
    Toml(String),
    CreatingEncodingFailed,
    InvalidCharactersFound(String),
    ReadingPathFailed,
    EmptyFile,
    FailedReadingIdentifierAsNotAString,
    FailedReadingIdentifierNotFound,
    FailedReadingGltfAsNotAString,
    FailedReadingGltfNotFound,
    OneOrMoreLocalizationsFailedToBeReadAsCultureIsNotAString,
    OneOrMoreLocalizationsFailedToBeReadAsCultureNotFound,
}

/// First value stored under `key` among the first `n` table entries.
pub open spec fn table_get_upto(es: Seq<(String, TomlNode)>, key: Seq<char>, n: int) -> Option<
    TomlNode,
>
    decreases n,
{
    if n <= 0 {
        None
    } else {
        match table_get_upto(es, key, n - 1) {
            Some(v) => Some(v),
            None => if es[n - 1].0@ == key {
                Some(es[n - 1].1)
            } else {
                None
            },
        }
    }
}

/// Value stored under `key` in a node: a lookup in a table, nothing in any
/// other kind of node.
pub open spec fn node_get_spec(n: TomlNode, key: Seq<char>) -> Option<TomlNode> {
    match n {
        TomlNode::Table(es) => table_get_upto(es@, key, es@.len() as int),
        _ => None,
    }
}

/// The characters of a node when it is a string.
pub open spec fn as_str_spec(n: Option<TomlNode>) -> Option<Seq<char>> {
    match n {
        Some(TomlNode::Str(s)) => Some(s@),
        _ => None,
    }
}

/// A display field: the string under `field` inside the "display" table,
/// or empty when the table or the field is missing or not a string.
pub open spec fn display_field_spec(table: TomlNode, field: Seq<char>) -> Seq<char> {
    match node_get_spec(table, "display"@) {
        Some(d) => match as_str_spec(node_get_spec(d, field)) {
            Some(s) => s,
            None => Seq::empty(),
        },
        None => Seq::empty(),
    }
}

/// A localization entry: present exactly when both "key" and "value" are
/// strings; anything else is skipped.
pub open spec fn entry_spec(e: TomlNode) -> Option<(Seq<char>, Seq<char>)> {
    match as_str_spec(node_get_spec(e, "key"@)) {
        Some(k) => match as_str_spec(node_get_spec(e, "value"@)) {
            Some(v) => Some((k, v)),
            None => None,
        },
        None => None,
    }
}

/// The entries kept from the first `n` elements of an entries array.
pub open spec fn entries_upto(arr: Seq<TomlNode>, n: int) -> Seq<(Seq<char>, Seq<char>)>
    decreases n,
{
    if n <= 0 {
        Seq::empty()
    } else {
        let p = entries_upto(arr, n - 1);
        match entry_spec(arr[n - 1]) {
            Some(kv) => p.push(kv),
            None => p,
        }
    }
}

/// The entry list of one localization block: its "entries" array filtered
/// down to well-formed entries; empty when absent or not an array.
pub open spec fn loc_entries_spec(loc: TomlNode) -> Seq<(Seq<char>, Seq<char>)> {
    match node_get_spec(loc, "entries"@) {
        Some(en) => match en {
            TomlNode::Array(a) => entries_upto(a@, a@.len() as int),
            _ => Seq::empty(),
        },
        None => Seq::empty(),
    }
}

/// The culture code of one localization block: required, and required to be
/// a string.
pub open spec fn culture_spec(loc: TomlNode) -> Result<Seq<char>, TomlAssetLoaderError> {
    match node_get_spec(loc, "culture"@) {
        None => Err(TomlAssetLoaderError::OneOrMoreLocalizationsFailedToBeReadAsCultureNotFound),
        Some(c) => match c {
            TomlNode::Str(s) => Ok(s@),
            _ => Err(
                TomlAssetLoaderError::OneOrMoreLocalizationsFailedToBeReadAsCultureIsNotAString,
            ),
        },
    }
}

/// The localization blocks read from the first `n` array elements: the
/// first bad culture aborts the whole read.
pub open spec fn locs_upto(arr: Seq<TomlNode>, n: int) -> Result<
    Seq<(Seq<char>, Seq<(Seq<char>, Seq<char>)>)>,
    TomlAssetLoaderError,
>
    decreases n,
{
    if n <= 0 {
        Ok(Seq::empty())
    } else {
        match locs_upto(arr, n - 1) {
            Err(e) => Err(e),
            Ok(p) => match culture_spec(arr[n - 1]) {
                Err(e) => Err(e),
                Ok(c) => Ok(p.push((c, loc_entries_spec(arr[n - 1])))),
            },
        }
    }
}

/// The full localization read: the "localizations" array processed in
/// order; a missing key or a non-array value yields no localizations.
pub open spec fn localizations_spec(table: TomlNode) -> Result<
    Seq<(Seq<char>, Seq<(Seq<char>, Seq<char>)>)>,
    TomlAssetLoaderError,
> {
    match node_get_spec(table, "localizations"@) {
        Some(l) => match l {
            TomlNode::Array(a) => locs_upto(a@, a@.len() as int),
            _ => Ok(Seq::empty()),
        },
        None => Ok(Seq::empty()),
    }
}

/// View of an entry list as key-value character sequences.
pub open spec fn entries_view(es: Seq<TomlAssetLocalizationEntry>) -> Seq<
    (Seq<char>, Seq<char>),
> {
    Seq::new(es.len(), |j: int| (es[j].key@, es[j].value@))
}

/// View of a localization list as culture and entry character sequences.
pub open spec fn locs_view(ls: Seq<TomlAssetLocalization>) -> Seq<
    (Seq<char>, Seq<(Seq<char>, Seq<char>)>),
> {
    Seq::new(ls.len(), |i: int| (ls[i].culture@, entries_view(ls[i].entries@)))
}

/// A found table entry persists as the scan window grows.
proof fn lemma_table_get_persist(es: Seq<(String, TomlNode)>, key: Seq<char>, n: int, m: int)
    requires
        0 <= n <= m,
        table_get_upto(es, key, n) is Some,
    ensures
        table_get_upto(es, key, m) == table_get_upto(es, key, n),
    decreases m,
{
    if m > n {
        lemma_table_get_persist(es, key, n, m - 1);
    }
}

/// A failed localization read stays failed as the scan window grows.
proof fn lemma_locs_err_persist(arr: Seq<TomlNode>, n: int, m: int)
    requires
        0 <= n <= m,
        locs_upto(arr, n) is Err,
    ensures
        locs_upto(arr, m) == locs_upto(arr, n),
    decreases m,
{
    if m > n {
        lemma_locs_err_persist(arr, n, m - 1);
    }
}

/// Look a key up in a node: the first matching table entry, nothing when
/// the node is not a table or the key is absent.
#[verifier::loop_isolation(false)]
fn node_get<'a>(node: &'a TomlNode, key: &String) -> (r: Option<&'a TomlNode>)
    ensures
        match r {
            Some(n) => node_get_spec(*node, key@) == Some(*n),
            None => node_get_spec(*node, key@) is None,
        },
{
    match node {
        TomlNode::Table(es) => {
            let n: usize = es.len();
            let mut i: usize = 0;
            while i < n
                invariant
                    i <= n,
                    n == es@.len(),
                    table_get_upto(es@, key@, i as int) is None,
                decreases n - i,
            {
                if es[i].0 == *key {
                    proof {
                        assert(table_get_upto(es@, key@, i + 1) == Some(es@[i as int].1));
                        lemma_table_get_persist(es@, key@, i + 1, n as int);
                    }
                    return Some(&es[i].1);
                }
                i = i + 1;
            }
            None
        },
        _ => None,
    }
}

/// Fields of one well-formed localization entry, or nothing when the entry
/// is to be skipped.
fn entry_fields(e: &TomlNode) -> (r: Option<(String, String)>)
    ensures
        match r {
            Some(kv) => entry_spec(*e) == Some((kv.0@, kv.1@)),
            None => entry_spec(*e) is None,
        },
{
    match node_get(e, &String::from_str("key")) {
        Some(kn) => match kn {
            TomlNode::Str(k) => match node_get(e, &String::from_str("value")) {
                Some(vn) => match vn {
                    TomlNode::Str(v) => Some((k.clone(), v.clone())),
                    _ => None,
                },
                None => None,
            },
            _ => None,
        },
        None => None,
    }
}

/// Reader of entity descriptions out of the TOML document model; the I/O
/// and the parse that produce the model are the embedding application's.
#[derive(Debug, Default)]
pub struct TomlAssetLoader;

impl TomlAssetLoader {
    /// The required "identifier" field of a description.
    pub fn read_identifier_from_toml(table: &TomlNode) -> (r: Result<
        String,
        TomlAssetLoaderError,
    >)
        ensures
            ({
                match node_get_spec(*table, "identifier"@) {
                    Option::None => r matches Err(e) && e
                        == TomlAssetLoaderError::FailedReadingIdentifierNotFound,
                    Option::Some(n) => match n {
                        TomlNode::Str(s) => r matches Ok(v) && v@ == s@,
                        _ => r matches Err(e) && e
                            == TomlAssetLoaderError::FailedReadingIdentifierAsNotAString,
                    },
                }
            }),
    {
        match node_get(table, &String::from_str("identifier")) {
            Some(n) => match n {
                TomlNode::Str(s) => Ok(s.clone()),
                _ => Err(TomlAssetLoaderError::FailedReadingIdentifierAsNotAString),
            },
            None => Err(TomlAssetLoaderError::FailedReadingIdentifierNotFound),
        }
    }

    /// The required "gltf" field of a description.
    pub fn read_gltf_from_toml(table: &TomlNode) -> (r: Result<String, TomlAssetLoaderError>)
        ensures
            ({
                match node_get_spec(*table, "gltf"@) {
                    Option::None => r matches Err(e) && e
                        == TomlAssetLoaderError::FailedReadingGltfNotFound,
                    Option::Some(n) => match n {
                        TomlNode::Str(s) => r matches Ok(v) && v@ == s@,
                        _ => r matches Err(e) && e
                            == TomlAssetLoaderError::FailedReadingGltfAsNotAString,
                    },
                }
            }),
    {
        match node_get(table, &String::from_str("gltf")) {
            Some(n) => match n {
                TomlNode::Str(s) => Ok(s.clone()),
                _ => Err(TomlAssetLoaderError::FailedReadingGltfAsNotAString),
            },
            None => Err(TomlAssetLoaderError::FailedReadingGltfNotFound),
        }
    }

    /// The optional "display" block; absent pieces default to empty.
    pub fn read_display_from_toml(table: &TomlNode) -> (r: TomlAssetDisplay)
        ensures
            r.title@ == display_field_spec(*table, "title"@),
            r.description@ == display_field_spec(*table, "description"@),
    {
        match node_get(table, &String::from_str("display")) {
            Some(d) => {
                let title: String = match node_get(d, &String::from_str("title")) {
                    Some(t) => match t {
                        TomlNode::Str(s) => s.clone(),
                        _ => String::new(),
                    },
                    None => String::new(),
                };
                let description: String = match node_get(d, &String::from_str("description")) {
                    Some(t) => match t {
                        TomlNode::Str(s) => s.clone(),
                        _ => String::new(),
                    },
                    None => String::new(),
                };
                TomlAssetDisplay { title, description }
            },
            None => TomlAssetDisplay { title: String::new(), description: String::new() },
        }
    }

    /// The "localizations" array of a description: one block per culture,
    /// entries without a string key and value silently skipped, and the
    /// whole read aborted by the first block whose culture is missing or
    /// not a string.
    #[verifier::loop_isolation(false)]
    pub fn read_localization_from_toml(table: &TomlNode) -> (r: Result<
        Vec<TomlAssetLocalization>,
        TomlAssetLoaderError,
    >)
        ensures
            ({
                match localizations_spec(*table) {
                    Ok(s) => r matches Ok(v) && locs_view(v@) == s,
                    Err(e) => r matches Err(e2) && e2 == e,
                }
            }),
    {
        match node_get(table, &String::from_str("localizations")) {
            None => {
                let out: Vec<TomlAssetLocalization> = Vec::new();
                proof {
                    assert(locs_view(out@) =~= Seq::empty());
                }
                Ok(out)
            },
            Some(l) => match l {
                TomlNode::Array(arr) => {
                    let n: usize = arr.len();
                    let mut out: Vec<TomlAssetLocalization> = Vec::new();
                    proof {
                        assert(locs_view(out@) =~= Seq::empty());
                    }
                    let mut i: usize = 0;
                    while i < n
                        invariant
                            i <= n,
                            n == arr@.len(),
                            locs_upto(arr@, i as int) == Ok::<
                                Seq<(Seq<char>, Seq<(Seq<char>, Seq<char>)>)>,
                                TomlAssetLoaderError,
                            >(locs_view(out@)),
                            out@.len() == i,
                        decreases n - i,
                    {
                        let culture: String = match node_get(
                            &arr[i],
                            &String::from_str("culture"),
                        ) {
                            None => {
                                proof {
                                    assert(culture_spec(arr@[i as int]) == Err::<
                                        Seq<char>,
                                        TomlAssetLoaderError,
                                    >(
                                        TomlAssetLoaderError::OneOrMoreLocalizationsFailedToBeReadAsCultureNotFound,
                                    ));
                                    assert(locs_upto(arr@, i + 1) is Err);
                                    lemma_locs_err_persist(arr@, i + 1, n as int);
                                }
                                return Err(
                                    TomlAssetLoaderError::OneOrMoreLocalizationsFailedToBeReadAsCultureNotFound,
                                );
                            },
                            Some(c) => match c {
                                TomlNode::Str(s) => s.clone(),
                                _ => {
                                    proof {
                                        assert(culture_spec(arr@[i as int]) == Err::<
                                            Seq<char>,
                                            TomlAssetLoaderError,
                                        >(
                                            TomlAssetLoaderError::OneOrMoreLocalizationsFailedToBeReadAsCultureIsNotAString,
                                        ));
                                        assert(locs_upto(arr@, i + 1) is Err);
                                        lemma_locs_err_persist(arr@, i + 1, n as int);
                                    }
                                    return Err(
                                        TomlAssetLoaderError::OneOrMoreLocalizationsFailedToBeReadAsCultureIsNotAString,
                                    );
                                },
                            },
                        };
                        let mut entries: Vec<TomlAssetLocalizationEntry> = Vec::new();
                        proof {
                            assert(entries_view(entries@) =~= Seq::empty());
                        }
                        match node_get(&arr[i], &String::from_str("entries")) {
                            Some(en) => match en {
                                TomlNode::Array(earr) => {
                                    let m: usize = earr.len();
                                    let mut j: usize = 0;
                                    while j < m
                                        invariant
                                            j <= m,
                                            m == earr@.len(),
                                            entries_view(entries@) == entries_upto(
                                                earr@,
                                                j as int,
                                            ),
                                        decreases m - j,
                                    {
                                        match entry_fields(&earr[j]) {
                                            Some(kv) => {
                                                entries.push(
                                                    TomlAssetLocalizationEntry {
                                                        key: kv.0,
                                                        value: kv.1,
                                                    },
                                                );
                                                proof {
                                                    assert(entries_view(entries@) =~= entries_upto(
                                                        earr@,
                                                        j + 1,
                                                    ));
                                                }
                                            },
                                            None => {
                                                proof {
                                                    assert(entries_view(entries@) =~= entries_upto(
                                                        earr@,
                                                        j + 1,
                                                    ));
                                                }
                                            },
                                        }
                                        j = j + 1;
                                    }
                                },
                                _ => {},
                            },
                            None => {},
                        }
                        proof {
                            assert(entries_view(entries@) == loc_entries_spec(arr@[i as int]));
                        }
                        out.push(TomlAssetLocalization { culture, entries });
                        proof {
                            assert(locs_view(out@) =~= locs_upto(arr@, i + 1)->Ok_0);
                        }
                        i = i + 1;
                    }
                    Ok(out)
                },
                _ => {
                    let out: Vec<TomlAssetLocalization> = Vec::new();
                    proof {
                        assert(locs_view(out@) =~= Seq::empty());
                    }
                    Ok(out)
                },
            },
        }
    }
}

} // verus!
