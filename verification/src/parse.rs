//! Construction of the document model from a parsed configuration value.
//!
//! An outside parser turns the textual patch document into a tree of
//! tables, arrays, strings and integers; this module checks that tree's
//! shape and builds the document: a `source` table with exactly one known
//! entry, and edit tables carrying `do`, `way`, `spot` and `source` or
//! `count`.

use vstd::prelude::*;
use vstd::string::StrSliceExecFns;

use crate::engine::edit_models;
use crate::errors::DocumentError;
use crate::models::AssuoFile;
use crate::models::AssuoPatch;
use crate::models::AssuoSource;
use crate::models::Direction;
use crate::models::DocModel;
use crate::models::EditModel;
use crate::models::SourceModel;

verus! {

/// One node of a parsed configuration document: the value kinds the
/// patch format uses, and `Other` for any kind it has no use for.
#[derive(Debug, PartialEq)]
pub enum ConfigValue {
    /// An integer value.
    Integer(i64),
    /// A string value.
    Text(String),
    /// An ordered list of values.
    Array(Vec<ConfigValue>),
    /// Key-value entries in document order.
    Table(Vec<(String, ConfigValue)>),
    /// Any other kind of value.
    Other,
}

/// The value under the first entry with the given key, if any.
pub open spec fn table_get(t: Seq<(String, ConfigValue)>, key: Seq<char>) -> Option<ConfigValue>
    decreases t.len(),
{
    if t.len() == 0 {
        None
    } else if t[0].0@ == key {
        Some(t[0].1)
    } else {
        table_get(t.drop_first(), key)
    }
}

/// The code of a character with an ASCII capital folded to its small
/// form, as `eq_ignore_ascii_case` of the standard library compares.
pub open spec fn lower_code(c: char) -> u32 {
    if 'A' <= c && c <= 'Z' {
        (c as u32 + 32) as u32
    } else {
        c as u32
    }
}

/// Whether two texts are equal up to ASCII case.
pub open spec fn eq_ignore_case(a: Seq<char>, b: Seq<char>) -> bool {
    a.len() == b.len() && (forall|i: int| 0 <= i < a.len() ==> lower_code(a[i]) == lower_code(b[i]))
}

/// A `bytes` array read into a byte sequence: every element must be an
/// integer within `0..=255`, and the first offending element decides the
/// error.
pub open spec fn parse_byte_list(arr: Seq<ConfigValue>) -> Result<Seq<u8>, DocumentError>
    decreases arr.len(),
{
    if arr.len() == 0 {
        Ok(Seq::<u8>::empty())
    } else {
        match arr[0] {
            ConfigValue::Integer(i) => if 0 <= i <= 255 {
                match parse_byte_list(arr.drop_first()) {
                    Ok(rest) => Ok(seq![i as u8] + rest),
                    Err(e) => Err(e),
                }
            } else {
                Err(DocumentError::ByteOutOfRange)
            },
            _ => Err(DocumentError::ByteNotInteger),
        }
    }
}

/// A source table read into a source model: exactly one entry, whose key
/// names the source kind and whose value is a string, or an array of
/// bytes under the key `bytes`.
pub open spec fn parse_source_spec(v: ConfigValue) -> Result<SourceModel, DocumentError> {
    match v {
        ConfigValue::Table(entries) => {
            if entries@.len() != 1 {
                Err(DocumentError::SourceNotSingleEntry)
            } else {
                let name = entries@[0].0;
                match entries@[0].1 {
                    ConfigValue::Array(arr) => {
                        if name@ != "bytes"@ {
                            Err(DocumentError::ArrayNotBytes)
                        } else {
                            match parse_byte_list(arr@) {
                                Ok(b) => Ok(SourceModel::Bytes(b)),
                                Err(e) => Err(e),
                            }
                        }
                    },
                    ConfigValue::Text(s) => {
                        if name@ == "text"@ {
                            Ok(SourceModel::Text(s@))
                        } else if name@ == "url"@ {
                            Ok(SourceModel::Url(s@))
                        } else if name@ == "file"@ {
                            Ok(SourceModel::File(s@))
                        } else if name@ == "assuo-url"@ {
                            Ok(SourceModel::AssuoUrl(s@))
                        } else if name@ == "assuo-file"@ {
                            Ok(SourceModel::AssuoFile(s@))
                        } else {
                            Err(DocumentError::UnknownSourceKind)
                        }
                    },
                    _ => Err(DocumentError::BadSourceValue),
                }
            }
        },
        _ => Err(DocumentError::NotTable),
    }
}

/// The fields every edit table carries beyond its action: `way`, `spot`,
/// and `source` for an insert or `count` for a remove.
pub open spec fn parse_patch_fields(t: Seq<(String, ConfigValue)>, is_insert: bool) -> Result<
    EditModel,
    DocumentError,
> {
    match table_get(t, "way"@) {
        None => Err(DocumentError::MissingWay),
        Some(wayv) => match wayv {
            ConfigValue::Text(w) => {
                if w@ == "pre"@ || w@ == "post"@ {
                    let way = if w@ == "pre"@ {
                        Direction::Pre
                    } else {
                        Direction::Post
                    };
                    match table_get(t, "spot"@) {
                        None => Err(DocumentError::MissingSpot),
                        Some(spotv) => match spotv {
                            ConfigValue::Integer(i) => {
                                if 0 <= i <= usize::MAX {
                                    let spot = i as usize;
                                    if is_insert {
                                        match table_get(t, "source"@) {
                                            None => Err(DocumentError::MissingSource),
                                            Some(sv) => match parse_source_spec(sv) {
                                                Ok(sm) => Ok(
                                                    EditModel::Insert { way, spot, source: sm },
                                                ),
                                                Err(e) => Err(e),
                                            },
                                        }
                                    } else {
                                        match table_get(t, "count"@) {
                                            None => Err(DocumentError::MissingCount),
                                            Some(cv) => match cv {
                                                ConfigValue::Integer(c) => {
                                                    if 0 <= c <= usize::MAX {
                                                        Ok(
                                                            EditModel::Remove {
                                                                way,
                                                                spot,
                                                                count: c as usize,
                                                            },
                                                        )
                                                    } else {
                                                        Err(DocumentError::CountOutOfRange)
                                                    }
                                                },
                                                _ => Err(DocumentError::CountNotInteger),
                                            },
                                        }
                                    }
                                } else {
                                    Err(DocumentError::SpotOutOfRange)
                                }
                            },
                            _ => Err(DocumentError::SpotNotInteger),
                        },
                    }
                } else {
                    Err(DocumentError::UnknownWay)
                }
            },
            _ => Err(DocumentError::WayNotString),
        },
    }
}

/// An edit table read into an edit model: its `do` entry, compared
/// regardless of ASCII case, decides between insert and remove.
pub open spec fn parse_patch_spec(v: ConfigValue) -> Result<EditModel, DocumentError> {
    match v {
        ConfigValue::Table(entries) => match table_get(entries@, "do"@) {
            None => Err(DocumentError::MissingAction),
            Some(action) => match action {
                ConfigValue::Text(a) => {
                    if eq_ignore_case(a@, "insert"@) {
                        parse_patch_fields(entries@, true)
                    } else if eq_ignore_case(a@, "remove"@) {
                        parse_patch_fields(entries@, false)
                    } else {
                        Err(DocumentError::UnknownAction)
                    }
                },
                _ => Err(DocumentError::ActionNotString),
            },
        },
        _ => Err(DocumentError::NotTable),
    }
}

/// A `patch` array read into edit models, in order, stopping at the
/// first malformed entry.
pub open spec fn parse_patch_list(arr: Seq<ConfigValue>) -> Result<Seq<EditModel>, DocumentError>
    decreases arr.len(),
{
    if arr.len() == 0 {
        Ok(Seq::<EditModel>::empty())
    } else {
        match parse_patch_spec(arr[0]) {
            Err(e) => Err(e),
            Ok(e0) => match parse_patch_list(arr.drop_first()) {
                Err(e) => Err(e),
                Ok(rest) => Ok(seq![e0] + rest),
            },
        }
    }
}

/// A whole document read into its model: a required `source` entry and
/// an optional `patch` array; other entries are ignored.
pub open spec fn parse_document_spec(v: ConfigValue) -> Result<DocModel, DocumentError> {
    match v {
        ConfigValue::Table(entries) => match table_get(entries@, "source"@) {
            None => Err(DocumentError::MissingBase),
            Some(sv) => match parse_source_spec(sv) {
                Err(e) => Err(e),
                Ok(sm) => match table_get(entries@, "patch"@) {
                    None => Ok(DocModel { source: sm, patch: None }),
                    Some(pv) => match pv {
                        ConfigValue::Array(arr) => match parse_patch_list(arr@) {
                            Ok(edits) => Ok(DocModel { source: sm, patch: Some(edits) }),
                            Err(e) => Err(e),
                        },
                        _ => Err(DocumentError::PatchListNotArray),
                    },
                },
            },
        },
        _ => Err(DocumentError::NotTable),
    }
}

/// Whether a string equals the given text exactly.
fn str_is(s: &String, lit: &str) -> (r: bool)
    ensures
        r == (s@ == lit@),
{
    let other: String = lit.to_owned();
    s.eq(&other)
}

/// The ASCII-case-folded code of one character.
fn fold_char(c: char) -> (r: u32)
    ensures
        r == lower_code(c),
{
    let v = c as u32;
    if 65 <= v && v <= 90 {
        v + 32
    } else {
        v
    }
}

/// Whether a string equals the given text up to ASCII case.
#[verifier::loop_isolation(false)]
fn str_is_ignore_case(s: &String, lit: &str) -> (r: bool)
    ensures
        r == eq_ignore_case(s@, lit@),
{
    let a = s.as_str();
    let an = a.unicode_len();
    let bn = lit.unicode_len();
    if an != bn {
        return false;
    }
    let mut i: usize = 0;
    while i < an
        invariant
            i <= an,
            an == a@.len() == lit@.len(),
            a@ == s@,
            forall|j: int| 0 <= j < i ==> lower_code(a@[j]) == lower_code(lit@[j]),
        decreases an - i,
    {
        let ca = a.get_char(i);
        let cb = lit.get_char(i);
        if fold_char(ca) != fold_char(cb) {
            proof {
                assert(lower_code(s@[i as int]) != lower_code(lit@[i as int]));
            }
            return false;
        }
        i += 1;
    }
    true
}

/// The values under `do`, `way`, `spot`, `source` and `count`, each the
/// first entry with that key, gathered in one pass over an edit table.
#[verifier::loop_isolation(false)]
fn split_patch_table(entries: Vec<(String, ConfigValue)>) -> (r: (
    Option<ConfigValue>,
    Option<ConfigValue>,
    Option<ConfigValue>,
    Option<ConfigValue>,
    Option<ConfigValue>,
))
    ensures
        r.0 == table_get(entries@, "do"@),
        r.1 == table_get(entries@, "way"@),
        r.2 == table_get(entries@, "spot"@),
        r.3 == table_get(entries@, "source"@),
        r.4 == table_get(entries@, "count"@),
{
    let ghost all = entries@;
    let mut v_do: Option<ConfigValue> = None;
    let mut v_way: Option<ConfigValue> = None;
    let mut v_spot: Option<ConfigValue> = None;
    let mut v_source: Option<ConfigValue> = None;
    let mut v_count: Option<ConfigValue> = None;
    let mut rest = entries;
    while rest.len() > 0
        invariant
            match v_do {
                Some(x) => table_get(all, "do"@) == Some(x),
                None => table_get(all, "do"@) == table_get(rest@, "do"@),
            },
            match v_way {
                Some(x) => table_get(all, "way"@) == Some(x),
                None => table_get(all, "way"@) == table_get(rest@, "way"@),
            },
            match v_spot {
                Some(x) => table_get(all, "spot"@) == Some(x),
                None => table_get(all, "spot"@) == table_get(rest@, "spot"@),
            },
            match v_source {
                Some(x) => table_get(all, "source"@) == Some(x),
                None => table_get(all, "source"@) == table_get(rest@, "source"@),
            },
            match v_count {
                Some(x) => table_get(all, "count"@) == Some(x),
                None => table_get(all, "count"@) == table_get(rest@, "count"@),
            },
        decreases rest@.len(),
    {
        let ghost todo = rest@;
        let (k, v) = rest.remove(0);
        proof {
            reveal_strlit("do");
            reveal_strlit("way");
            reveal_strlit("spot");
            reveal_strlit("source");
            reveal_strlit("count");
            assert("do"@.len() == 2 && "way"@.len() == 3 && "spot"@.len() == 4 && "source"@.len()
                == 6 && "count"@.len() == 5);
            assert("do"@ != "way"@ && "do"@ != "spot"@ && "do"@ != "source"@ && "do"@
                != "count"@);
            assert("way"@ != "spot"@ && "way"@ != "source"@ && "way"@ != "count"@);
            assert("spot"@ != "source"@ && "spot"@ != "count"@);
            assert("source"@ != "count"@);
            assert(rest@ =~= todo.drop_first());
            assert(todo[0].0 == k && todo[0].1 == v);
        }
        if str_is(&k, "do") && v_do.is_none() {
            v_do = Some(v);
        } else if str_is(&k, "way") && v_way.is_none() {
            v_way = Some(v);
        } else if str_is(&k, "spot") && v_spot.is_none() {
            v_spot = Some(v);
        } else if str_is(&k, "source") && v_source.is_none() {
            v_source = Some(v);
        } else if str_is(&k, "count") && v_count.is_none() {
            v_count = Some(v);
        }
    }
    (v_do, v_way, v_spot, v_source, v_count)
}

/// The values under `source` and `patch`, each the first entry with that
/// key, gathered in one pass over a document table.
#[verifier::loop_isolation(false)]
fn split_document_table(entries: Vec<(String, ConfigValue)>) -> (r: (
    Option<ConfigValue>,
    Option<ConfigValue>,
))
    ensures
        r.0 == table_get(entries@, "source"@),
        r.1 == table_get(entries@, "patch"@),
{
    let ghost all = entries@;
    let mut v_source: Option<ConfigValue> = None;
    let mut v_patch: Option<ConfigValue> = None;
    let mut rest = entries;
    while rest.len() > 0
        invariant
            match v_source {
                Some(x) => table_get(all, "source"@) == Some(x),
                None => table_get(all, "source"@) == table_get(rest@, "source"@),
            },
            match v_patch {
                Some(x) => table_get(all, "patch"@) == Some(x),
                None => table_get(all, "patch"@) == table_get(rest@, "patch"@),
            },
        decreases rest@.len(),
    {
        let ghost todo = rest@;
        let (k, v) = rest.remove(0);
        proof {
            reveal_strlit("source");
            reveal_strlit("patch");
            assert("source"@.len() == 6 && "patch"@.len() == 5);
            assert("source"@ != "patch"@);
            assert(rest@ =~= todo.drop_first());
            assert(todo[0].0 == k && todo[0].1 == v);
        }
        if str_is(&k, "source") && v_source.is_none() {
            v_source = Some(v);
        } else if str_is(&k, "patch") && v_patch.is_none() {
            v_patch = Some(v);
        }
    }
    (v_source, v_patch)
}

/// A `bytes` array turned into bytes, exactly as `parse_byte_list`
/// states it.
#[verifier::loop_isolation(false)]
fn parse_bytes_exec(arr: Vec<ConfigValue>) -> (r: Result<Vec<u8>, DocumentError>)
    ensures
        match r {
            Ok(v) => parse_byte_list(arr@) == Ok::<Seq<u8>, DocumentError>(v@),
            Err(e) => parse_byte_list(arr@) == Err::<Seq<u8>, DocumentError>(e),
        },
{
    let ghost all = arr@;
    let mut rest = arr;
    let mut out: Vec<u8> = Vec::new();
    proof {
        match parse_byte_list(all) {
            Ok(r2) => {
                assert(Seq::<u8>::empty() + r2 =~= r2);
            },
            Err(_) => {},
        }
    }
    while rest.len() > 0
        invariant
            match parse_byte_list(rest@) {
                Ok(r2) => parse_byte_list(all) == Ok::<Seq<u8>, DocumentError>(out@ + r2),
                Err(e) => parse_byte_list(all) == Err::<Seq<u8>, DocumentError>(e),
            },
        decreases rest@.len(),
    {
        let ghost todo = rest@;
        let ghost done = out@;
        let v0 = rest.remove(0);
        proof {
            assert(rest@ =~= todo.drop_first());
        }
        match v0 {
            ConfigValue::Integer(i) => {
                if 0 <= i && i <= 255 {
                    out.push(i as u8);
                    proof {
                        match parse_byte_list(todo.drop_first()) {
                            Ok(r2) => {
                                assert(done + (seq![i as u8] + r2) =~= out@ + r2);
                            },
                            Err(_) => {},
                        }
                    }
                } else {
                    return Err(DocumentError::ByteOutOfRange);
                }
            },
            _ => {
                return Err(DocumentError::ByteNotInteger);
            },
        }
    }
    proof {
        assert(out@ + Seq::<u8>::empty() =~= out@);
    }
    Ok(out)
}

impl AssuoSource {
    /// Read a source from its configuration value: a table with exactly
    /// one entry, exactly as `parse_source_spec` states it.
    pub fn from_config(value: ConfigValue) -> (r: Result<AssuoSource, DocumentError>)
        ensures
            match r {
                Ok(s) => parse_source_spec(value) == Ok::<SourceModel, DocumentError>(s.model()),
                Err(e) => parse_source_spec(value) == Err::<SourceModel, DocumentError>(e),
            },
    {
        let mut entries = match value {
            ConfigValue::Table(t) => t,
            _ => {
                return Err(DocumentError::NotTable);
            },
        };
        if entries.len() != 1 {
            return Err(DocumentError::SourceNotSingleEntry);
        }
        let (name, inner) = entries.remove(0);
        match inner {
            ConfigValue::Array(arr) => {
                if !str_is(&name, "bytes") {
                    return Err(DocumentError::ArrayNotBytes);
                }
                match parse_bytes_exec(arr) {
                    Ok(b) => Ok(AssuoSource::Bytes(b)),
                    Err(e) => Err(e),
                }
            },
            ConfigValue::Text(s) => {
                if str_is(&name, "text") {
                    Ok(AssuoSource::Text(s))
                } else if str_is(&name, "url") {
                    Ok(AssuoSource::Url(s))
                } else if str_is(&name, "file") {
                    Ok(AssuoSource::File(s))
                } else if str_is(&name, "assuo-url") {
                    Ok(AssuoSource::AssuoUrl(s))
                } else if str_is(&name, "assuo-file") {
                    Ok(AssuoSource::AssuoFile(s))
                } else {
                    Err(DocumentError::UnknownSourceKind)
                }
            },
            _ => Err(DocumentError::BadSourceValue),
        }
    }
}

impl AssuoPatch<AssuoSource> {
    /// Read one edit from its configuration value, exactly as
    /// `parse_patch_spec` states it.
    pub fn from_config(value: ConfigValue) -> (r: Result<AssuoPatch<AssuoSource>, DocumentError>)
        ensures
            match r {
                Ok(p) => parse_patch_spec(value) == Ok::<EditModel, DocumentError>(p.model()),
                Err(e) => parse_patch_spec(value) == Err::<EditModel, DocumentError>(e),
            },
    {
        let entries = match value {
            ConfigValue::Table(t) => t,
            _ => {
                return Err(DocumentError::NotTable);
            },
        };
        let ghost t = entries@;
        let (v_do, v_way, v_spot, v_source, v_count) = split_patch_table(entries);
        let action = match v_do {
            Some(a) => a,
            None => {
                return Err(DocumentError::MissingAction);
            },
        };
        let a = match action {
            ConfigValue::Text(s) => s,
            _ => {
                return Err(DocumentError::ActionNotString);
            },
        };
        let is_insert: bool = if str_is_ignore_case(&a, "insert") {
            true
        } else if str_is_ignore_case(&a, "remove") {
            false
        } else {
            return Err(DocumentError::UnknownAction);
        };
        let wayv = match v_way {
            Some(w) => w,
            None => {
                return Err(DocumentError::MissingWay);
            },
        };
        let w = match wayv {
            ConfigValue::Text(s) => s,
            _ => {
                return Err(DocumentError::WayNotString);
            },
        };
        let way: Direction = if str_is(&w, "pre") {
            Direction::Pre
        } else if str_is(&w, "post") {
            Direction::Post
        } else {
            return Err(DocumentError::UnknownWay);
        };
        let spotv = match v_spot {
            Some(s) => s,
            None => {
                return Err(DocumentError::MissingSpot);
            },
        };
        let si = match spotv {
            ConfigValue::Integer(i) => i,
            _ => {
                return Err(DocumentError::SpotNotInteger);
            },
        };
        if si < 0 || (si as u64) > (usize::MAX as u64) {
            return Err(DocumentError::SpotOutOfRange);
        }
        let spot = si as usize;
        if is_insert {
            let sv = match v_source {
                Some(s) => s,
                None => {
                    return Err(DocumentError::MissingSource);
                },
            };
            match AssuoSource::from_config(sv) {
                Ok(source) => Ok(AssuoPatch::Insert { way, spot, source }),
                Err(e) => Err(e),
            }
        } else {
            let cv = match v_count {
                Some(c) => c,
                None => {
                    return Err(DocumentError::MissingCount);
                },
            };
            let ci = match cv {
                ConfigValue::Integer(i) => i,
                _ => {
                    return Err(DocumentError::CountNotInteger);
                },
            };
            if ci < 0 || (ci as u64) > (usize::MAX as u64) {
                return Err(DocumentError::CountOutOfRange);
            }
            Ok(AssuoPatch::Remove { way, spot, count: ci as usize })
        }
    }
}

/// A `patch` array turned into edits, exactly as `parse_patch_list`
/// states it.
#[verifier::loop_isolation(false)]
fn parse_patches_exec(arr: Vec<ConfigValue>) -> (r: Result<
    Vec<AssuoPatch<AssuoSource>>,
    DocumentError,
>)
    ensures
        match r {
            Ok(ps) => parse_patch_list(arr@) == Ok::<Seq<EditModel>, DocumentError>(
                edit_models(ps@),
            ),
            Err(e) => parse_patch_list(arr@) == Err::<Seq<EditModel>, DocumentError>(e),
        },
{
    let ghost all = arr@;
    let mut rest = arr;
    let mut out: Vec<AssuoPatch<AssuoSource>> = Vec::new();
    proof {
        assert(edit_models(out@) =~= Seq::<EditModel>::empty());
        match parse_patch_list(all) {
            Ok(r2) => {
                assert(Seq::<EditModel>::empty() + r2 =~= r2);
            },
            Err(_) => {},
        }
    }
    while rest.len() > 0
        invariant
            match parse_patch_list(rest@) {
                Ok(r2) => parse_patch_list(all) == Ok::<Seq<EditModel>, DocumentError>(
                    edit_models(out@) + r2,
                ),
                Err(e) => parse_patch_list(all) == Err::<Seq<EditModel>, DocumentError>(e),
            },
        decreases rest@.len(),
    {
        let ghost todo = rest@;
        let ghost done = edit_models(out@);
        let v0 = rest.remove(0);
        proof {
            assert(rest@ =~= todo.drop_first());
        }
        match AssuoPatch::<AssuoSource>::from_config(v0) {
            Ok(p) => {
                let ghost pm = p.model();
                out.push(p);
                proof {
                    assert(edit_models(out@) =~= done.push(pm));
                    match parse_patch_list(todo.drop_first()) {
                        Ok(r2) => {
                            assert(done + (seq![pm] + r2) =~= done.push(pm) + r2);
                        },
                        Err(_) => {},
                    }
                }
            },
            Err(e) => {
                return Err(e);
            },
        }
    }
    proof {
        assert(edit_models(out@) + Seq::<EditModel>::empty() =~= edit_models(out@));
    }
    Ok(out)
}

impl AssuoFile<AssuoSource> {
    /// Read a whole document from its configuration value, exactly as
    /// `parse_document_spec` states it.
    pub fn from_config(value: ConfigValue) -> (r: Result<AssuoFile<AssuoSource>, DocumentError>)
        ensures
            match r {
                Ok(f) => parse_document_spec(value) == Ok::<DocModel, DocumentError>(f.model()),
                Err(e) => parse_document_spec(value) == Err::<DocModel, DocumentError>(e),
            },
    {
        let entries = match value {
            ConfigValue::Table(t) => t,
            _ => {
                return Err(DocumentError::NotTable);
            },
        };
        let (v_source, v_patch) = split_document_table(entries);
        let sv = match v_source {
            Some(s) => s,
            None => {
                return Err(DocumentError::MissingBase);
            },
        };
        let source = match AssuoSource::from_config(sv) {
            Ok(s) => s,
            Err(e) => {
                return Err(e);
            },
        };
        match v_patch {
            None => Ok(AssuoFile { source, patch: None }),
            Some(pv) => {
                let arr = match pv {
                    ConfigValue::Array(a) => a,
                    _ => {
                        return Err(DocumentError::PatchListNotArray);
                    },
                };
                match parse_patches_exec(arr) {
                    Ok(ps) => Ok(AssuoFile { source, patch: Some(ps) }),
                    Err(e) => Err(e),
                }
            },
        }
    }
}

} // verus!
