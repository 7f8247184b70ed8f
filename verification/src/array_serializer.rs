//! Rendering of array columns by their offset table.
//!
//! An array column stores its elements flattened, with an offset table:
//! row `i` holds the elements at positions `offsets[i] .. offsets[i + 1]`.
//! Rendering a row writes the pre-rendered, pre-quoted element texts joined
//! with a comma and a space, in square brackets. Grouping the column into
//! JSON values walks the flattened element values with a cursor, taking
//! `offsets[i + 1] - offsets[i]` elements for each row and wrapping them as
//! a JSON array.

use vstd::prelude::*;
use vstd::string::StringExecFns;

verus! {

/// A JSON value of the `serde_json` crate, opaque here: values are grouped
/// and wrapped, never inspected.
#[verifier::external_type_specification]
#[verifier::external_body]
pub struct ExValue(serde_json::Value);

/// The JSON array value holding the given values, in order: what
/// `serde_json::Value::Array` returns. A plain enum constructor, so the
/// result is a function of the wrapped values alone.
pub uninterp spec fn array_of(items: Seq<serde_json::Value>) -> serde_json::Value;

/// Relies on `serde_json::Value::Array`: wraps the given values as one JSON
/// array value.
#[verifier::external_body]
fn json_array(items: Vec<serde_json::Value>) -> (r: serde_json::Value)
    ensures
        r == array_of(items@),
{
    serde_json::Value::Array(items)
}

/// Renders array rows: the offset table of the column.
pub struct ArraySerializer {
    /// Row `i` spans element positions `offsets[i] .. offsets[i + 1]`.
    pub offsets: Vec<u64>,
}

/// An offset table: non-empty and non-decreasing.
pub open spec fn offsets_wf(s: Seq<u64>) -> bool {
    &&& s.len() >= 1
    &&& forall|i: int| 0 <= i < s.len() - 1 ==> (#[trigger] s[i]) <= s[i + 1]
}

/// A non-decreasing table is monotone across any span.
pub proof fn lemma_offsets_mono(s: Seq<u64>, i: int, j: int)
    requires
        offsets_wf(s),
        0 <= i <= j < s.len(),
    ensures
        s[i] <= s[j],
    decreases j - i,
{
    if i < j {
        lemma_offsets_mono(s, i + 1, j);
    }
}

/// The elements `fields[start .. start + n]`, joined with a comma and a
/// space.
pub open spec fn joined_fields(fields: Seq<Seq<u8>>, start: int, n: int) -> Seq<u8>
    decreases n,
{
    if n <= 0 {
        Seq::empty()
    } else if n == 1 {
        fields[start]
    } else {
        joined_fields(fields, start, n - 1) + seq![44u8, 32u8] + fields[start + n - 1]
    }
}

/// One rendered row: the row's joined elements in square brackets.
pub open spec fn spec_array_field(fields: Seq<Seq<u8>>, start: int, end: int) -> Seq<u8> {
    seq![91u8] + joined_fields(fields, start, end - start) + seq![93u8]
}

impl ArraySerializer {
    /// Builds a serializer from a column's offset table. A column that is
    /// not an array column has no offset table (`None`) and is rejected with
    /// the error text `unable to get array column` — exactly then.
    pub fn try_create(offsets: Option<Vec<u64>>) -> (r: Result<ArraySerializer, String>)
        ensures
            match r {
                Ok(ser) => offsets is Some && ser.offsets@ == offsets->0@,
                Err(e) => offsets is None && e@ == "unable to get array column"@,
            },
    {
        match offsets {
            Some(offsets) => Ok(ArraySerializer { offsets }),
            None => Err(String::from_str("unable to get array column")),
        }
    }

    /// Appends the rendering of row `row_index` to `buf`. `fields` holds
    /// the pre-rendered, pre-quoted text of every element of the column.
    pub fn write_field(&self, row_index: usize, buf: &mut Vec<u8>, fields: &Vec<Vec<u8>>)
        requires
            offsets_wf(self.offsets@),
            row_index + 1 < self.offsets@.len(),
            self.offsets@[row_index + 1] <= fields@.len(),
            self.offsets@[row_index + 1] <= usize::MAX,
        ensures
            final(buf)@ == old(buf)@ + spec_array_field(
                fields@.map_values(|f: Vec<u8>| f@),
                self.offsets@[row_index as int] as int,
                self.offsets@[row_index + 1] as int,
            ),
    {
        let ghost fv = fields@.map_values(|f: Vec<u8>| f@);
        proof {
            assert(self.offsets.len() == self.offsets@.len());
            assert(self.offsets@[row_index as int] <= self.offsets@[row_index + 1]);
        }
        let start = self.offsets[row_index] as usize;
        let end = self.offsets[row_index + 1] as usize;
        buf.push(91);
        proof {
            assert(buf@ =~= old(buf)@ + seq![91u8] + joined_fields(fv, start as int, 0));
        }
        let mut i: usize = start;
        while i < end
            invariant
                start <= i <= end,
                start == self.offsets@[row_index as int],
                end == self.offsets@[row_index + 1],
                end <= fields@.len(),
                fv == fields@.map_values(|f: Vec<u8>| f@),
                buf@ == old(buf)@ + seq![91u8] + joined_fields(fv, start as int, i - start),
            decreases end - i,
        {
            if i != start {
                buf.push(44);
                buf.push(32);
            }
            let mut j: usize = 0;
            let ghost before = buf@;
            while j < fields[i].len()
                invariant
                    i < fields@.len(),
                    j <= fields@[i as int]@.len(),
                    buf@ == before + fields@[i as int]@.take(j as int),
                decreases fields@[i as int]@.len() - j,
            {
                buf.push(fields[i][j]);
                proof {
                    assert(buf@ =~= before + fields@[i as int]@.take(j + 1));
                }
                j = j + 1;
            }
            proof {
                assert(fields@[i as int]@.take(fields@[i as int]@.len() as int) =~= fields@[
                    i as int]@);
                assert(fv[i as int] == fields@[i as int]@);
                assert(buf@ =~= old(buf)@ + seq![91u8] + joined_fields(
                    fv,
                    start as int,
                    i + 1 - start,
                ));
            }
            i = i + 1;
        }
        buf.push(93);
        proof {
            assert(buf@ =~= old(buf)@ + spec_array_field(fv, start as int, end as int));
        }
    }

    /// Groups the column's flattened element values into one JSON array
    /// value per row, walking the elements with a cursor: row `i` takes the
    /// next `offsets[i + 1] - offsets[i]` values in order. Always succeeds,
    /// with one value per row holding exactly its span of the input.
    pub fn serialize_json_values(&self, inner: Vec<serde_json::Value>) -> (r: Result<
        Vec<serde_json::Value>,
        String,
    >)
        requires
            offsets_wf(self.offsets@),
            self.offsets@.last() - self.offsets@[0] <= inner@.len(),
        ensures
            match r {
                Ok(out) => {
                    &&& out@.len() == self.offsets@.len() - 1
                    &&& forall|i: int|
                        0 <= i < out@.len() ==> #[trigger] out@[i] == array_of(
                            inner@.subrange(
                                self.offsets@[i] - self.offsets@[0],
                                self.offsets@[i + 1] - self.offsets@[0],
                            ),
                        )
                },
                Err(_) => false,
            },
    {
        let ghost offs = self.offsets@;
        let ghost iv = inner@;
        let size = self.offsets.len() - 1;
        let mut rest = inner;
        let mut out: Vec<serde_json::Value> = Vec::new();
        let mut i: usize = 0;
        proof {
            assert(rest@ =~= iv.skip(0));
        }
        while i < size
            invariant
                i <= size,
                size == offs.len() - 1,
                offs == self.offsets@,
                offsets_wf(offs),
                offs.last() - offs[0] <= iv.len(),
                rest@ == iv.skip(offs[i as int] - offs[0]),
                out@.len() == i,
                forall|j: int|
                    0 <= j < i ==> #[trigger] out@[j] == array_of(
                        iv.subrange(offs[j] - offs[0], offs[j + 1] - offs[0]),
                    ),
            decreases size - i,
        {
            proof {
                lemma_offsets_mono(offs, i + 1, offs.len() - 1);
                lemma_offsets_mono(offs, 0, i as int);
            }
            let span = self.offsets[i + 1] - self.offsets[i];
            let ghost base = offs[i as int] - offs[0];
            let mut group: Vec<serde_json::Value> = Vec::new();
            let mut taken: u64 = 0;
            proof {
                assert(group@ =~= iv.subrange(base, base + 0));
            }
            while taken < span
                invariant
                    taken <= span,
                    span == offs[i + 1] - offs[i as int],
                    base == offs[i as int] - offs[0],
                    i + 1 < offs.len(),
                    offs == self.offsets@,
                    offs.last() - offs[0] <= iv.len(),
                    offsets_wf(offs),
                    rest@ == iv.skip(base + taken),
                    group@ == iv.subrange(base, base + taken),
                decreases span - taken,
            {
                proof {
                    lemma_offsets_mono(offs, i + 1, offs.len() - 1);
                    lemma_offsets_mono(offs, 0, i as int);
                    assert(base + taken < iv.len());
                    assert(rest@.len() > 0);
                }
                let v = rest.remove(0);
                proof {
                    assert(v == iv[base + taken]);
                    assert(rest@ =~= iv.skip(base + taken + 1));
                }
                group.push(v);
                proof {
                    assert(group@ =~= iv.subrange(base, base + taken + 1));
                }
                taken = taken + 1;
            }
            proof {
                assert(group@ == iv.subrange(offs[i as int] - offs[0], offs[i + 1] - offs[0]));
            }
            out.push(json_array(group));
            i = i + 1;
        }
        Ok(out)
    }
}

} // verus!
