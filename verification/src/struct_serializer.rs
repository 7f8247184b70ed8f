//! Rendering of struct values as tuple text.
//!
//! A struct value is rendered as `(a, b, c)`: the fields' own renderings,
//! quoted with single quotes where the field's type calls for quoting,
//! joined with a comma and a space, in parentheses. The fields' own
//! renderings are produced by the per-type serializers around this module
//! and handed in as plain strings; what is decided here is the quoting and
//! the joining, and the rejection of a non-struct value.

use vstd::prelude::*;
use vstd::string::StringExecFns;

verus! {

/// Renders struct values: remembers, for each field position, whether that
/// field's rendering is quoted.
pub struct StructSerializer {
    /// For each field, whether its rendering is wrapped in single quotes.
    pub quoted: Vec<bool>,
}

/// One rendered field: the part itself, in single quotes when asked.
pub open spec fn field_repr(part: Seq<char>, q: bool) -> Seq<char> {
    if q {
        seq!['\''] + part + seq!['\'']
    } else {
        part
    }
}

/// The first `n` fields, joined with a comma and a space.
pub open spec fn fields_repr(parts: Seq<Seq<char>>, quoted: Seq<bool>, n: int) -> Seq<char>
    decreases n,
{
    if n <= 0 {
        Seq::empty()
    } else if n == 1 {
        field_repr(parts[0], quoted[0])
    } else {
        fields_repr(parts, quoted, n - 1) + seq![',', ' '] + field_repr(
            parts[n - 1],
            quoted[n - 1],
        )
    }
}

/// The whole rendering: the joined fields in parentheses. Fields beyond the
/// shorter of the two lists are dropped, as zipping does.
pub open spec fn spec_struct_repr(parts: Seq<Seq<char>>, quoted: Seq<bool>) -> Seq<char> {
    seq!['('] + fields_repr(
        parts,
        quoted,
        if parts.len() <= quoted.len() {
            parts.len() as int
        } else {
            quoted.len() as int
        },
    ) + seq![')']
}

impl StructSerializer {
    /// Renders one struct value from its fields' renderings, or rejects a
    /// value that is not a struct (`parts` is `None`) with the error text
    /// `Incorrect Struct value` — exactly then.
    pub fn serialize_value(&self, parts: Option<&Vec<String>>) -> (r: Result<String, String>)
        ensures
            match r {
                Ok(s) => parts is Some && s@ == spec_struct_repr(
                    parts->0@.map_values(|p: String| p@),
                    self.quoted@,
                ),
                Err(e) => parts is None && e@ == "Incorrect Struct value"@,
            },
    {
        let ps = match parts {
            Some(ps) => ps,
            None => {
                return Err(String::from_str("Incorrect Struct value"));
            },
        };
        let ghost pv = ps@.map_values(|p: String| p@);
        let ghost qv = self.quoted@;
        let n = if ps.len() <= self.quoted.len() {
            ps.len()
        } else {
            self.quoted.len()
        };
        let mut res = String::new();
        res.append("(");
        proof {
            reveal_strlit("(");
            reveal_strlit(")");
            reveal_strlit(", ");
            reveal_strlit("'");
            assert("("@ =~= seq!['(']);
            assert(res@ =~= seq!['('] + fields_repr(pv, qv, 0));
        }
        let mut i: usize = 0;
        while i < n
            invariant
                i <= n,
                n <= ps@.len(),
                n <= qv.len(),
                pv == ps@.map_values(|p: String| p@),
                qv == self.quoted@,
                res@ == seq!['('] + fields_repr(pv, qv, i as int),
            decreases n - i,
        {
            proof {
                reveal_strlit(", ");
                reveal_strlit("'");
            }
            if i > 0 {
                res.append(", ");
                proof {
                    assert(", "@ =~= seq![',', ' ']);
                }
            }
            if self.quoted[i] {
                res.append("'");
                res.append(ps[i].as_str());
                res.append("'");
                proof {
                    assert("'"@ =~= seq!['\'']);
                }
            } else {
                res.append(ps[i].as_str());
            }
            proof {
                assert(pv[i as int] == ps@[i as int]@);
                if i == 0 {
                    assert(fields_repr(pv, qv, 1) == field_repr(pv[0], qv[0]));
                }
                assert(res@ =~= seq!['('] + fields_repr(pv, qv, i + 1));
            }
            i = i + 1;
        }
        res.append(")");
        proof {
            assert(")"@ =~= seq![')']);
            assert(res@ =~= spec_struct_repr(pv, qv));
        }
        Ok(res)
    }

    /// Renders a column of struct values, row by row. Every row of a struct
    /// column is a struct value, so this never fails.
    pub fn serialize_column(&self, rows: &Vec<Vec<String>>) -> (r: Result<Vec<String>, String>)
        ensures
            match r {
                Ok(out) => out@.len() == rows@.len() && forall|i: int|
                    0 <= i < rows@.len() ==> (#[trigger] out@[i])@ == spec_struct_repr(
                        rows@[i]@.map_values(|p: String| p@),
                        self.quoted@,
                    ),
                Err(_) => false,
            },
    {
        let mut out: Vec<String> = Vec::new();
        let mut i: usize = 0;
        while i < rows.len()
            invariant
                i <= rows@.len(),
                out@.len() == i,
                forall|j: int|
                    0 <= j < i ==> (#[trigger] out@[j])@ == spec_struct_repr(
                        rows@[j]@.map_values(|p: String| p@),
                        self.quoted@,
                    ),
            decreases rows@.len() - i,
        {
            let s = match self.serialize_value(Some(&rows[i])) {
                Ok(s) => s,
                Err(_) => vstd::pervasive::unreached(),
            };
            out.push(s);
            i = i + 1;
        }
        Ok(out)
    }
}

} // verus!
