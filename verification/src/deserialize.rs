//! Turning deserialization failures into field-level validation errors.
//!
//! A deserializer that tracks paths (such as `serde_path_to_error`) reports
//! where in the input it failed, as `.field`, `field.sub` or `.` for the
//! whole input. These helpers turn such a path and message into the same
//! [`ValidationErrors`] shape that validation failures have.
use vstd::prelude::*;
use crate::error::{ErrorModel, ValidationError, ValidationErrors};

verus! {

/// The field name for a deserializer path: `_body` for the empty path and for
/// `.`, else the path without one leading `.`.
pub open spec fn spec_field_name(path: Seq<char>) -> Seq<char> {
    if path.len() == 0 || path == seq!['.'] {
        seq!['_', 'b', 'o', 'd', 'y']
    } else if path[0] == '.' {
        path.drop_first()
    } else {
        path
    }
}

/// Converts a deserializer path to a dot-notation field name; errors on the
/// whole input go under `_body`.
pub fn path_to_field_name(path: String) -> (r: String)
    ensures
        r@ == spec_field_name(path@),
{
    let n = path.as_str().unicode_len();
    if n == 0 || (n == 1 && path.as_str().get_char(0) == '.') {
        proof {
            reveal_strlit("_body");
            assert("_body"@ =~= seq!['_', 'b', 'o', 'd', 'y']);
            if n == 1 && path@[0] == '.' {
                assert(path@ =~= seq!['.']);
            }
        }
        return "_body".to_string();
    }
    proof {
        if path@ == seq!['.'] {
            assert(path@.len() == 1 && path@[0] == '.');
        }
    }
    if path.as_str().get_char(0) == '.' {
        let rest = path.as_str().substring_char(1, n);
        assert(rest@ =~= path@.drop_first());
        rest.to_string()
    } else {
        path
    }
}

/// The errors for a failed deserialization: `message` under the field named
/// by `path`, with rule `deserialization`.
pub fn deserialization_errors(path: String, message: &str) -> (r: ValidationErrors)
    ensures
        r@ == Map::<Seq<char>, Seq<ErrorModel>>::empty().insert(
            spec_field_name(path@),
            seq![ErrorModel { rule: "deserialization"@, message: message@, params: Seq::empty() }],
        ),
{
    let field = path_to_field_name(path);
    let mut errors = ValidationErrors::new();
    let e = ValidationError::new("deserialization", message);
    errors.add(field.as_str(), e);
    proof {
        assert(crate::error::errors_at(Map::<Seq<char>, Seq<ErrorModel>>::empty(), field@) =~= Seq::<ErrorModel>::empty());
        assert(Seq::<ErrorModel>::empty().push(e@) =~= seq![e@]);
    }
    errors
}

} // verus!
