//! `config set`: the configuration file's new text for one setting, edited
//! in place with `toml_edit` so the rest of the file keeps its formatting.

use vstd::prelude::*;

use crate::numbers::{signed_in, signed_text};
use crate::settings::{check_key, key_lines, key_table, kind_of, Kind};
use crate::text::{chars_of, decimal_chars, find_char, find_from, push_char, push_decimal_u64, push_str, same_text, string_of};

verus! {

broadcast use vstd::string::group_string_axioms;

/// Why `toml_edit` refuses an edit.
#[derive(Debug, Clone, Copy, PartialEq, Eq, Structural)]
pub enum TomlRefusal {
    /// The document is not TOML.
    NotToml,
    /// The table named holds something other than a table.
    NotATable,
    /// The value's text is not a TOML value.
    BadItem,
}

/// What `toml_edit` finds when `table` of document `doc` is looked up for
/// an edit: `None` when `doc` parses and `table` is a table or absent.
pub uninterp spec fn toml_table_check(doc: Seq<char>, table: Seq<char>) -> Option<TomlRefusal>;

/// `doc` as `toml_edit` writes it back after `table.field` is set to the
/// TOML value written `item`, the table being created when absent.
pub uninterp spec fn toml_set_text(doc: Seq<char>, table: Seq<char>, field: Seq<char>, item: Seq<char>) -> Result<
    Seq<char>,
    TomlRefusal,
>;

/// How `toml_edit` writes the string `s` as a TOML value.
pub uninterp spec fn toml_string_text(s: Seq<char>) -> Seq<char>;

/// `toml_edit::DocumentMut` parsing `doc`, then `entry(table)` (a new table
/// when absent) and `as_table_like_mut`: whether the edit can go ahead.
/// Nothing more is stated than that the answer depends on `doc` and `table`
/// alone, and that it is never about the value.
#[verifier::external_body]
fn table_refusal(doc: &str, table: &str) -> (r: Option<TomlRefusal>)
    ensures
        r == toml_table_check(doc@, table@),
        r != Some(TomlRefusal::BadItem),
{
    let mut d = match doc.parse::<toml_edit::DocumentMut>() {
        Ok(d) => d,
        Err(_) => return Some(TomlRefusal::NotToml),
    };
    match d.entry(table).or_insert(toml_edit::Item::Table(toml_edit::Table::new())).as_table_like_mut() {
        Some(_) => None,
        None => Some(TomlRefusal::NotATable),
    }
}

/// `toml_edit`: parse `doc`, parse `item` as a `Value`, insert it as
/// `table.field` (creating the table when absent) and write the document out.
/// What the text is, is named, not spelled out.
#[verifier::external_body]
fn toml_set(doc: &str, table: &str, field: &str, item: &str) -> (r: Result<String, TomlRefusal>)
    ensures
        match r {
            Ok(s) => toml_set_text(doc@, table@, field@, item@) == Ok::<Seq<char>, TomlRefusal>(s@),
            Err(e) => toml_set_text(doc@, table@, field@, item@) == Err::<Seq<char>, TomlRefusal>(e),
        },
{
    let mut d = match doc.parse::<toml_edit::DocumentMut>() {
        Ok(d) => d,
        Err(_) => return Err(TomlRefusal::NotToml),
    };
    let v = match item.parse::<toml_edit::Value>() {
        Ok(v) => v,
        Err(_) => return Err(TomlRefusal::BadItem),
    };
    match d.entry(table).or_insert(toml_edit::Item::Table(toml_edit::Table::new())).as_table_like_mut() {
        Some(t) => {
            t.insert(field, toml_edit::Item::Value(v));
        },
        None => return Err(TomlRefusal::NotATable),
    }
    Ok(d.to_string())
}

/// `toml_edit::Value::from(s)` written out: the string as a TOML value.
#[verifier::external_body]
fn toml_string(s: &str) -> (r: String)
    ensures
        r@ == toml_string_text(s@),
{
    toml_edit::Value::from(s).to_string()
}

/// The table part of `table.field`.
pub open spec fn table_of(key: Seq<char>) -> Seq<char> {
    match find_char(key, '.') {
        Some(i) => key.take(i),
        None => key,
    }
}

/// The field part of `table.field`.
pub open spec fn field_of(key: Seq<char>) -> Seq<char> {
    match find_char(key, '.') {
        Some(i) => key.skip(i + 1),
        None => Seq::empty(),
    }
}

/// `v` as `i64::to_string` writes it.
pub open spec fn int_text(v: int) -> Seq<char> {
    if v < 0 {
        seq!['-'] + decimal_chars((-v) as nat)
    } else {
        decimal_chars(v as nat)
    }
}

/// The TOML value a setting of kind `k` gets from the text `raw`: a string
/// as `toml_edit` quotes it, `true`/`false`, an `i64` as `str::parse` reads
/// it, or for a float the caller's literal. `None` when `raw` does not read
/// as the kind.
pub open spec fn typed_item(k: Kind, raw: Seq<char>, float_item: Option<Seq<char>>) -> Option<Seq<char>> {
    match k {
        Kind::Str => Some(toml_string_text(raw)),
        Kind::Bool => if raw == "true"@ {
            Some("true"@)
        } else if raw == "false"@ {
            Some("false"@)
        } else {
            None
        },
        Kind::Int => match signed_text(raw, i64::MAX as nat) {
            Some(v) => Some(int_text(v)),
            None => None,
        },
        Kind::Float => float_item,
    }
}

/// Why `raw` is refused for a setting of kind `k`.
pub open spec fn value_error(k: Kind, raw: Seq<char>) -> Seq<char> {
    let what = match k {
        Kind::Bool => "true/false"@,
        Kind::Int => "a whole number"@,
        _ => "a number"@,
    };
    "`"@ + raw + "` is not "@ + what
}

/// Why `config set` refuses an edit.
#[derive(Debug, Clone)]
pub enum ConfigEditError {
    /// No such setting; the message lists the known ones.
    UnknownKey(String),
    /// The file is not TOML.
    NotToml,
    /// The setting's table (named) holds something other than a table.
    NotATable(String),
    /// The value does not read as the setting's kind; the message says so.
    BadValue(String),
    /// `toml_edit` did not take the value's text.
    BadItem,
}

fn split_key(key: &str) -> (r: (String, String))
    ensures
        r.0@ == table_of(key@),
        r.1@ == field_of(key@),
{
    let v = chars_of(key);
    let n = v.len();
    proof {
        crate::text::lemma_find_char_found(v@, '.');
    }
    assert(v@.subrange(0, v@.len() as int) =~= v@);
    match find_from(&v, 0, '.') {
        Some(i) => {
            proof {
                match find_char(v@, '.') {
                    Some(k) => {
                        assert(k == i);
                    },
                    None => {},
                }
            }
            assert(v@.take(i as int) =~= v@.subrange(0, i as int));
            assert(v@.skip(i + 1) =~= v@.subrange(i + 1, v@.len() as int));
            assert(i < n);
            (string_of(&v, 0, i), string_of(&v, i + 1, n))
        },
        None => {
            let mut empty = String::new();
            proof {
                assert(empty@ =~= Seq::<char>::empty());
            }
            (string_of(&v, 0, v.len()), empty)
        },
    }
}

fn typed_literal(k: Kind, raw: &str, float_item: Option<&str>) -> (r: Result<String, String>)
    ensures
        match typed_item(
            k,
            raw@,
            match float_item {
                Some(f) => Some(f@),
                None => None,
            },
        ) {
            Some(t) => r matches Ok(s) && s@ == t,
            None => r matches Err(m) && m@ == value_error(k, raw@),
        },
{
    let mut err = String::new();
    push_str(&mut err, "`");
    push_str(&mut err, raw);
    push_str(&mut err, "` is not ");
    match k {
        Kind::Str => Ok(toml_string(raw)),
        Kind::Bool => {
            let mut out = String::new();
            if same_text(raw, "true") {
                push_str(&mut out, "true");
                Ok(out)
            } else if same_text(raw, "false") {
                push_str(&mut out, "false");
                Ok(out)
            } else {
                push_str(&mut err, "true/false");
                Err(err)
            }
        },
        Kind::Int => {
            let v = chars_of(raw);
            assert(v@.subrange(0, v@.len() as int) =~= v@);
            match signed_in(&v, 0, v.len(), 0x7fff_ffff_ffff_ffff) {
                Some(n) => {
                    let mut out = String::new();
                    if n < 0 {
                        push_char(&mut out, '-');
                        push_decimal_u64(&mut out, (0 - n) as u64);
                    } else {
                        push_decimal_u64(&mut out, n as u64);
                    }
                    Ok(out)
                },
                None => {
                    push_str(&mut err, "a whole number");
                    Err(err)
                },
            }
        },
        Kind::Float => match float_item {
            Some(f) => {
                let mut out = String::new();
                push_str(&mut out, f);
                Ok(out)
            },
            None => {
                push_str(&mut err, "a number");
                Err(err)
            },
        },
    }
}

/// `config set key raw`: the configuration file's new text, `doc` being
/// its current text (empty when there is no file yet), or why the edit is
/// refused. `float_item` is the TOML value the caller writes for `raw` read
/// as a float, `None` when it does not read as one; only float settings use
/// it. The refusals come in this order: an unknown key, a file that is not
/// TOML, a table that is something else, a value of the wrong kind.
pub fn set_config_text(doc: &str, key: &str, raw: &str, float_item: Option<&str>) -> (r: Result<
    String,
    ConfigEditError,
>)
    ensures
        match kind_of(key_table(), key@) {
            None => r matches Err(ConfigEditError::UnknownKey(m)) && m@ == "unknown key `"@ + key@
                + "`. known keys:"@ + key_lines(key_table(), key_table().len() as int),
            Some(k) => {
                let t = table_of(key@);
                match toml_table_check(doc@, t) {
                    Some(TomlRefusal::NotToml) => r matches Err(ConfigEditError::NotToml),
                    Some(_) => r matches Err(ConfigEditError::NotATable(n)) && n@ == t,
                    None => match typed_item(
                        k,
                        raw@,
                        match float_item {
                            Some(f) => Some(f@),
                            None => None,
                        },
                    ) {
                        None => r matches Err(ConfigEditError::BadValue(m)) && m@ == value_error(k, raw@),
                        Some(item) => match toml_set_text(doc@, t, field_of(key@), item) {
                            Ok(text) => r matches Ok(s) && s@ == text,
                            Err(TomlRefusal::NotToml) => r matches Err(ConfigEditError::NotToml),
                            Err(TomlRefusal::NotATable) => r matches Err(ConfigEditError::NotATable(n)) && n@
                                == t,
                            Err(TomlRefusal::BadItem) => r matches Err(ConfigEditError::BadItem),
                        },
                    },
                }
            },
        },
{
    let k = match check_key(key) {
        Ok(k) => k,
        Err(m) => return Err(ConfigEditError::UnknownKey(m)),
    };
    let (table, field) = split_key(key);
    match table_refusal(doc, table.as_str()) {
        Some(TomlRefusal::NotToml) => return Err(ConfigEditError::NotToml),
        Some(_) => return Err(ConfigEditError::NotATable(table)),
        None => {},
    }
    let item = match typed_literal(k, raw, float_item) {
        Ok(t) => t,
        Err(m) => return Err(ConfigEditError::BadValue(m)),
    };
    match toml_set(doc, table.as_str(), field.as_str(), item.as_str()) {
        Ok(s) => Ok(s),
        Err(TomlRefusal::NotToml) => Err(ConfigEditError::NotToml),
        Err(TomlRefusal::NotATable) => Err(ConfigEditError::NotATable(table)),
        Err(TomlRefusal::BadItem) => Err(ConfigEditError::BadItem),
    }
}

} // verus!
