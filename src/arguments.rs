//! Typed reading of tool-call arguments: defaults for absent fields and an
//! error naming the field when a value has the wrong type.

use vstd::prelude::*;
use crate::format::string_views;
use crate::dispatch::count_argument;
use vstd::string::StringExecFns;

verus! {

/// The value of one argument field, as far as the tools read it.
#[derive(Debug)]
pub enum ArgValue {
    Null,
    Bool(bool),
    /// A number; `None` when it is not an integer that fits in 64 bits.
    Number(Option<i64>),
    Str(String),
    /// An array; `None` when some item is not a string.
    Array(Option<Vec<String>>),
    Object,
}

/// The error for a field of the wrong type: the field's name in backticks,
/// then what it must be.
pub open spec fn field_error(key: Seq<char>, must: Seq<char>) -> Seq<char> {
    "`"@ + key + must
}

fn field_error_text(key: &str, must: &str) -> (r: String)
    ensures
        r@ == field_error(key@, must@),
{
    String::from_str("`").concat(key).concat(must)
}

/// A boolean field; absent means false.
pub fn get_bool(value: Option<&ArgValue>, key: &str) -> (r: Result<bool, String>)
    ensures
        value is None ==> r == Ok::<bool, String>(false),
        value matches Some(ArgValue::Bool(b)) ==> r == Ok::<bool, String>(*b),
        r is Err <==> (value is Some && !(value->0 is Bool)),
        r matches Err(e) ==> e@ == field_error(key@, "` must be a boolean"@),
{
    match value {
        None => Ok(false),
        Some(ArgValue::Bool(b)) => Ok(*b),
        Some(_) => Err(field_error_text(key, "` must be a boolean")),
    }
}

/// An optional integer field.
pub fn get_optional_i64(value: Option<&ArgValue>, key: &str) -> (r: Result<Option<i64>, String>)
    ensures
        value is None ==> r == Ok::<Option<i64>, String>(None),
        value matches Some(ArgValue::Number(Some(n))) ==> r == Ok::<Option<i64>, String>(Some(*n)),
        r is Err <==> (value is Some && !(value matches Some(ArgValue::Number(Some(_))))),
        r matches Err(e) ==> e@ == field_error(key@, "` must be an integer"@),
{
    match value {
        None => Ok(None),
        Some(ArgValue::Number(Some(n))) => Ok(Some(*n)),
        Some(_) => Err(field_error_text(key, "` must be an integer")),
    }
}

/// An optional count field: an integer that is not negative.
pub fn get_optional_usize(value: Option<&ArgValue>, key: &str) -> (r: Result<Option<usize>, String>)
    ensures
        value is None ==> r == Ok::<Option<usize>, String>(None),
        value matches Some(ArgValue::Number(Some(n))) ==> (0 <= *n <= usize::MAX ==> r == Ok::<
            Option<usize>,
            String,
        >(Some(*n as usize))) && (*n < 0 ==> r is Err && r->Err_0@ == field_error(
            key@,
            "` must be >= 0"@,
        )),
        (value is Some && !(value matches Some(ArgValue::Number(Some(_))))) ==> (r matches Err(e)
            && e@ == field_error(key@, "` must be an integer"@)),
{
    let n = get_optional_i64(value, key)?;
    count_argument(key, n)
}

/// An optional string field.
pub fn get_optional_string(value: Option<&ArgValue>, key: &str) -> (r: Result<Option<String>, String>)
    ensures
        value is None ==> r is Ok && r->Ok_0 is None,
        value matches Some(ArgValue::Str(s)) ==> (r matches Ok(Some(t)) && t@ == s@),
        r is Err <==> (value is Some && !(value->0 is Str)),
        r matches Err(e) ==> e@ == field_error(key@, "` must be a string"@),
{
    match value {
        None => Ok(None),
        Some(ArgValue::Str(s)) => Ok(Some(s.clone())),
        Some(_) => Err(field_error_text(key, "` must be a string")),
    }
}

/// An optional field holding an array of strings.
pub fn get_optional_string_array(value: Option<&ArgValue>, key: &str) -> (r: Result<
    Option<Vec<String>>,
    String,
>)
    ensures
        value is None ==> r is Ok && r->Ok_0 is None,
        value matches Some(ArgValue::Array(Some(v))) ==> (r matches Ok(Some(w)) && string_views(
            w@,
        ) == string_views(v@)),
        r is Err <==> (value is Some && !(value matches Some(ArgValue::Array(Some(_))))),
        r matches Err(e) ==> e@ == field_error(key@, "` must be an array of strings"@),
{
    match value {
        None => Ok(None),
        Some(ArgValue::Array(Some(v))) => {
            let mut out: Vec<String> = Vec::new();
            let mut i: usize = 0;
            while i < v.len()
                invariant
                    i <= v.len(),
                    string_views(out@) == string_views(v@).take(i as int),
                decreases v.len() - i,
            {
                let s = v[i].clone();
                let ghost prev = out@;
                out.push(s);
                assert(string_views(out@) =~= string_views(prev).push(s@));
                assert(string_views(v@).take(i + 1) =~= string_views(v@).take(i as int).push(
                    v@[i as int]@,
                ));
                i = i + 1;
            }
            assert(string_views(v@).take(i as int) =~= string_views(v@));
            Ok(Some(out))
        },
        Some(_) => Err(field_error_text(key, "` must be an array of strings")),
    }
}

} // verus!
