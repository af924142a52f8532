use vstd::prelude::*;
use crate::errors::Error;
use crate::parsing::parse_u64;
use crate::parsing::parse_u64_spec;

verus! {

/// One decoded record: a required primary value, an optional secondary value,
/// and an optional join key.
pub struct Measurement {
    pub primary: u64,
    pub rhs: Option<u64>,
    pub join: Option<String>,
}

/// The mathematical content of a `Measurement`.
pub struct MeasView {
    pub primary: u64,
    pub rhs: Option<u64>,
    pub join: Option<Seq<char>>,
}

impl View for Measurement {
    type V = MeasView;

    open spec fn view(&self) -> MeasView {
        MeasView {
            primary: self.primary,
            rhs: self.rhs,
            join: match self.join {
                Some(s) => Some(s@),
                None => None,
            },
        }
    }
}

/// Why a row could not be turned into a measurement.
pub enum ExtractErr {
    /// The primary field is missing from the row.
    MissingPrimary,
    /// A present field could not be decoded as an integer.
    Malformed,
}

/// The index of the first header field equal to `name`, if any.
pub open spec fn find_col(header: Seq<Seq<char>>, name: Seq<char>) -> Option<int>
    decreases header.len(),
{
    if header.len() == 0 {
        None
    } else if header[0] == name {
        Some(0)
    } else {
        match find_col(header.drop_first(), name) {
            None => None,
            Some(i) => Some(i + 1),
        }
    }
}

/// The measurement a row yields under the given column positions, or the
/// error that aborts the run:
/// - the primary field must be present and decode as an integer;
/// - the secondary field, when a position is configured and the field is
///   present, must decode as an integer; a missing field or an unconfigured
///   position is a missing observation, not an error;
/// - the join key is present only when a position is configured and the field
///   there is non-empty.
pub open spec fn extract_spec(
    row: Seq<Seq<char>>,
    p: int,
    r: Option<int>,
    j: Option<int>,
) -> Result<MeasView, ExtractErr> {
    if !(0 <= p < row.len()) {
        Err(ExtractErr::MissingPrimary)
    } else {
        match parse_u64_spec(row[p]) {
            None => Err(ExtractErr::Malformed),
            Some(pv) => {
                let rv = match r {
                    Some(ri) => if 0 <= ri < row.len() {
                        parse_u64_spec(row[ri])
                    } else {
                        None
                    },
                    None => None,
                };
                let field_bad = match r {
                    Some(ri) => 0 <= ri < row.len() && parse_u64_spec(row[ri]) is None,
                    None => false,
                };
                if field_bad {
                    Err(ExtractErr::Malformed)
                } else {
                    Ok(MeasView { primary: pv, rhs: rv, join: join_key_spec(row, j) })
                }
            },
        }
    }
}

/// The join key a row yields: the field at the configured position, if that
/// position is configured, in range, and the field is non-empty.
pub open spec fn join_key_spec(row: Seq<Seq<char>>, j: Option<int>) -> Option<Seq<char>> {
    match j {
        Some(ji) => if 0 <= ji < row.len() && row[ji].len() > 0 {
            Some(row[ji])
        } else {
            None
        },
        None => None,
    }
}

/// Column positions resolved against a header, used to decode each row of
/// that source into a `Measurement`.
pub struct Reader {
    pub primary_idx: usize,
    pub rhs_idx: Option<usize>,
    pub join_idx: Option<usize>,
}

/// The positions of a `Reader` as mathematical values.
pub open spec fn opt_int(o: Option<usize>) -> Option<int> {
    match o {
        Some(v) => Some(v as int),
        None => None,
    }
}

/// Compare two string slices character by character.
pub fn str_eq(a: &str, b: &str) -> (r: bool)
    ensures
        r == (a@ == b@),
{
    let na = a.unicode_len();
    let nb = b.unicode_len();
    if na != nb {
        proof {
            assert(a@ != b@);
        }
        return false;
    }
    let mut i: usize = 0;
    while i < na
        invariant
            0 <= i <= na,
            na == a@.len(),
            na == b@.len(),
            forall|k: int| 0 <= k < i ==> a@[k] == b@[k],
        decreases na - i,
    {
        if a.get_char(i) != b.get_char(i) {
            return false;
        }
        i += 1;
    }
    proof {
        assert(a@ =~= b@);
    }
    true
}

/// Find the first field of `header` equal to `name`, as `find_col` says.
fn position_of(header: &Vec<String>, name: &str) -> (r: Option<usize>)
    ensures
        opt_int(r) == find_col(header.deep_view(), name@),
{
    let ghost h = header.deep_view();
    proof {
        assert(h.skip(0) =~= h);
    }
    let mut i: usize = 0;
    while i < header.len()
        invariant
            0 <= i <= header.len(),
            h == header.deep_view(),
            h.len() == header.len(),
            forall|k: int| 0 <= k < i ==> h[k] != name@,
            find_col(h, name@) == match find_col(h.skip(i as int), name@) {
                None => None::<int>,
                Some(v) => Some(v + i),
            },
        decreases header.len() - i,
    {
        proof {
            assert(h.skip(i as int)[0] == h[i as int]);
        }
        if str_eq(header[i].as_str(), name) {
            proof {
                assert(find_col(h.skip(i as int), name@) == Some(0int));
            }
            return Some(i);
        }
        proof {
            assert(h.skip(i as int).drop_first() =~= h.skip(i + 1));
        }
        i += 1;
    }
    proof {
        assert(h.skip(i as int) =~= Seq::<Seq<char>>::empty());
    }
    None
}

/// Resolve the configured column names against a header, producing the
/// `Reader` for that source. Every configured name must be present in the
/// header: one that is absent is fatal, as an absent configured column or
/// join column is a decoding error of the source.
pub fn new_reader(
    header: &Vec<String>,
    primary_cname: &str,
    rhs_cname: Option<&str>,
    join_cname: Option<&str>,
) -> (r: Result<Reader, Error>)
    ensures
        r matches Ok(rd) ==> {
            &&& Some(rd.primary_idx as int) == find_col(header.deep_view(), primary_cname@)
            &&& opt_int(rd.rhs_idx) == (match rhs_cname {
                Some(n) => find_col(header.deep_view(), n@),
                None => None,
            })
            &&& opt_int(rd.join_idx) == (match join_cname {
                Some(n) => find_col(header.deep_view(), n@),
                None => None,
            })
        },
        r is Ok <==> {
            &&& find_col(header.deep_view(), primary_cname@) is Some
            &&& (rhs_cname matches Some(n) ==> find_col(header.deep_view(), n@) is Some)
            &&& (join_cname matches Some(n) ==> find_col(header.deep_view(), n@) is Some)
        },
        r matches Err(e) ==> e is ParseIntError,
{
    let primary_idx = match position_of(header, primary_cname) {
        Some(i) => i,
        None => {
            return Err(Error::ParseIntError);
        },
    };
    let rhs_idx = match rhs_cname {
        Some(n) => match position_of(header, n) {
            Some(i) => Some(i),
            None => {
                return Err(Error::ParseIntError);
            },
        },
        None => None,
    };
    let join_idx = match join_cname {
        Some(n) => match position_of(header, n) {
            Some(i) => Some(i),
            None => {
                return Err(Error::ParseIntError);
            },
        },
        None => None,
    };
    Ok(Reader { primary_idx, rhs_idx, join_idx })
}

impl Reader {
    /// Decode one row into a `Measurement`, exactly as `extract_spec` says.
    pub fn next(&self, row: &Vec<String>) -> (r: Result<Measurement, Error>)
        ensures
            (match extract_spec(row.deep_view(), self.primary_idx as int, opt_int(self.rhs_idx),
                opt_int(self.join_idx)) {
                Ok(mv) => r matches Ok(m) && m@ == mv,
                Err(ExtractErr::MissingPrimary) => r matches Err(e) && e is UserError,
                Err(ExtractErr::Malformed) => r matches Err(e) && e is ParseIntError,
            }),
    {
        let ghost rv = row.deep_view();
        if self.primary_idx >= row.len() {
            return Err(Error::UserError(String::from_str("row has no field at the primary column")));
        }
        proof {
            assert(rv[self.primary_idx as int] == row@[self.primary_idx as int]@);
        }
        let primary = match parse_u64(row[self.primary_idx].as_str()) {
            Some(v) => v,
            None => {
                return Err(Error::ParseIntError);
            },
        };
        let rhs = match self.rhs_idx {
            Some(ri) => {
                if ri < row.len() {
                    proof {
                        assert(rv[ri as int] == row@[ri as int]@);
                    }
                    match parse_u64(row[ri].as_str()) {
                        Some(v) => Some(v),
                        None => {
                            return Err(Error::ParseIntError);
                        },
                    }
                } else {
                    None
                }
            },
            None => None,
        };
        let join = match self.join_idx {
            Some(ji) => {
                if ji < row.len() && row[ji].as_str().unicode_len() > 0 {
                    proof {
                        assert(rv[ji as int] == row@[ji as int]@);
                    }
                    Some(row[ji].clone())
                } else {
                    None
                }
            },
            None => None,
        };
        Ok(Measurement { primary, rhs, join })
    }
}

} // verus!
