use vstd::prelude::*;
use crate::errors::Error;
use crate::rows::{new_reader, find_col};
use crate::policy::OOBRule;
use crate::pipeline::{
    RunOut, FailKind, DualOut, err_matches, run_single_spec, run_dual_spec, run_single, run_dual,
    fill_and_serialize, lemma_run_single_bounded, lemma_run_dual_bounded,
};
use crate::hist::{Hist, serialized_hist, base64_of};

verus! {

/// The values the single-stream pipeline records over a source, or its first
/// failure: both configured columns must be in the header; one that is absent
/// is fatal before any row is read.
pub open spec fn single_deltas_spec(
    header: Seq<Seq<char>>,
    rows: Seq<Seq<Seq<char>>>,
    lhs: Seq<char>,
    rhs: Seq<char>,
    rule: OOBRule,
    max: u64,
) -> RunOut {
    match (find_col(header, lhs), find_col(header, rhs)) {
        (Some(p), Some(ri)) => run_single_spec(rows, p, Some(ri), None, rule, max),
        _ => RunOut::Failed(FailKind::MissingColumn),
    }
}

/// The values the dual-stream pipeline records over two sources, or its first
/// failure: each side's value column and the join column must be in that
/// side's header; one that is absent is fatal before any row is read.
pub open spec fn dual_deltas_spec(
    lheader: Seq<Seq<char>>,
    lrows: Seq<Seq<Seq<char>>>,
    rheader: Seq<Seq<char>>,
    rrows: Seq<Seq<Seq<char>>>,
    lhs: Seq<char>,
    rhs: Seq<char>,
    join: Seq<char>,
    rule: OOBRule,
    max: u64,
) -> RunOut {
    match (
        find_col(lheader, lhs),
        find_col(lheader, join),
        find_col(rheader, rhs),
        find_col(rheader, join),
    ) {
        (Some(lp), Some(lji), Some(rp), Some(rji)) => match run_dual_spec(
            lrows,
            lp,
            Some(lji),
            rrows,
            Map::empty(),
            rp,
            None,
            Some(rji),
            rule,
            max,
        ) {
            DualOut::DOut(s, remf, pendf) => RunOut::Out(s),
            DualOut::DFailed(k) => RunOut::Failed(k),
        },
        _ => RunOut::Failed(FailKind::MissingColumn),
    }
}

/// What a whole run returns for a given run outcome: degenerate histogram
/// parameters fail before any row is touched; a failed run surfaces its
/// error; a successful run yields the base64 text of the serialized
/// histogram of its recorded values, and is owed that output whenever the
/// recorded values can be counted in an `i64` and the encoding fits the
/// base64 bound — the only failure paths the serializers have here.
pub open spec fn outcome_matches(
    r: Result<String, Error>,
    max_value: u64,
    sigfigs: u8,
    run: RunOut,
) -> bool {
    if max_value < 2 || sigfigs > 5 {
        r matches Err(e) && e is HistError
    } else {
        match run {
            RunOut::Out(s) => {
                &&& (r matches Ok(t) ==> t@ == base64_of(
                    serialized_hist(max_value, sigfigs, s.to_multiset()),
                ))
                &&& (r matches Err(e) ==> e is HistError)
                &&& ((s.len() <= i64::MAX as int && serialized_hist(
                    max_value,
                    sigfigs,
                    s.to_multiset(),
                ).len() <= usize::MAX as int / 4) ==> r is Ok)
            },
            RunOut::Failed(k) => r matches Err(e) && err_matches(e, k),
        }
    }
}

/// Run the single-stream mode over one decoded source: difference the two
/// configured columns row by row under the out-of-bounds rule, and serialize
/// the resulting histogram.
pub fn single_file_to_hist(
    header: &Vec<String>,
    rows: &Vec<Vec<String>>,
    lhs_column: &str,
    rhs_column: &str,
    max_value: u64,
    sigfigs: u8,
    oob: OOBRule,
) -> (r: Result<String, Error>)
    ensures
        outcome_matches(
            r,
            max_value,
            sigfigs,
            single_deltas_spec(
                header.deep_view(),
                rows.deep_view(),
                lhs_column@,
                rhs_column@,
                oob,
                max_value,
            ),
        ),
{
    let hist = match Hist::new(max_value, sigfigs) {
        Ok(h) => h,
        Err(s) => {
            return Err(Error::HistError(s));
        },
    };
    let reader = match new_reader(header, lhs_column, Some(rhs_column), None) {
        Ok(rd) => rd,
        Err(e) => {
            return Err(e);
        },
    };
    let deltas = match run_single(&reader, rows, oob, max_value) {
        Ok(v) => v,
        Err(e) => {
            return Err(e);
        },
    };
    proof {
        lemma_run_single_bounded(
            rows.deep_view(),
            reader.primary_idx as int,
            crate::rows::opt_int(reader.rhs_idx),
            crate::rows::opt_int(reader.join_idx),
            oob,
            max_value,
        );
    }
    fill_and_serialize(hist, &deltas)
}

/// Run the dual-stream mode over two decoded sources: match each left row
/// against the right stream on the join column, difference the primaries of
/// each matched pair under the out-of-bounds rule, and serialize the
/// resulting histogram.
pub fn dual_file_to_hist(
    lhs_header: &Vec<String>,
    lhs_rows: &Vec<Vec<String>>,
    rhs_header: &Vec<String>,
    rhs_rows: Vec<Vec<String>>,
    lhs_column: &str,
    rhs_column: &str,
    join_column: &str,
    max_value: u64,
    sigfigs: u8,
    oob: OOBRule,
) -> (r: Result<String, Error>)
    ensures
        outcome_matches(
            r,
            max_value,
            sigfigs,
            dual_deltas_spec(
                lhs_header.deep_view(),
                lhs_rows.deep_view(),
                rhs_header.deep_view(),
                rhs_rows.deep_view(),
                lhs_column@,
                rhs_column@,
                join_column@,
                oob,
                max_value,
            ),
        ),
{
    let hist = match Hist::new(max_value, sigfigs) {
        Ok(h) => h,
        Err(s) => {
            return Err(Error::HistError(s));
        },
    };
    let lreader = match new_reader(lhs_header, lhs_column, None, Some(join_column)) {
        Ok(rd) => rd,
        Err(e) => {
            return Err(e);
        },
    };
    let rreader = match new_reader(rhs_header, rhs_column, None, Some(join_column)) {
        Ok(rd) => rd,
        Err(e) => {
            return Err(e);
        },
    };
    let ghost lp = lreader.primary_idx as int;
    let ghost lj = crate::rows::opt_int(lreader.join_idx);
    let ghost rp = rreader.primary_idx as int;
    let ghost rr = crate::rows::opt_int(rreader.rhs_idx);
    let ghost rj = crate::rows::opt_int(rreader.join_idx);
    let deltas = match run_dual(&lreader, lhs_rows, rreader, rhs_rows, oob, max_value) {
        Ok(v) => v,
        Err(e) => {
            return Err(e);
        },
    };
    proof {
        lemma_run_dual_bounded(
            lhs_rows.deep_view(),
            lp,
            lj,
            rhs_rows.deep_view(),
            Map::empty(),
            rp,
            rr,
            rj,
            oob,
            max_value,
        );
    }
    fill_and_serialize(hist, &deltas)
}

/// The run's immutable configuration: source locations, the two columns to
/// difference, the histogram parameters, the optional second source and join
/// column, and the out-of-bounds rule.
pub struct Config {
    pub fname: String,
    pub lhs_column: String,
    pub rhs_column: String,
    pub max_value: u64,
    pub sigfigs: u8,
    pub rhs_fname: Option<String>,
    pub join_column: Option<String>,
    pub oob: OOBRule,
}

impl Config {
    /// A second source and a join column must be supplied together.
    pub open spec fn mode_ok(self) -> bool {
        self.rhs_fname is Some <==> self.join_column is Some
    }

    /// Run the whole pipeline over the already-decoded sources: dual-stream
    /// when a second source and a join column were both supplied, else
    /// single-stream; supplying one without the other is a configuration
    /// error, fatal before any row is read.
    pub fn to_hist(
        &self,
        header: &Vec<String>,
        rows: &Vec<Vec<String>>,
        rhs_input: Option<(Vec<String>, Vec<Vec<String>>)>,
    ) -> (r: Result<String, Error>)
        ensures
            !self.mode_ok() ==> (r matches Err(e) && e is UserError),
            (self.mode_ok() && self.rhs_fname is None) ==> outcome_matches(
                r,
                self.max_value,
                self.sigfigs,
                single_deltas_spec(
                    header.deep_view(),
                    rows.deep_view(),
                    self.lhs_column@,
                    self.rhs_column@,
                    self.oob,
                    self.max_value,
                ),
            ),
            (self.mode_ok() && self.rhs_fname is Some) ==> (match (rhs_input, self.join_column) {
                (Some(ri), Some(jc)) => outcome_matches(
                    r,
                    self.max_value,
                    self.sigfigs,
                    dual_deltas_spec(
                        header.deep_view(),
                        rows.deep_view(),
                        ri.0.deep_view(),
                        ri.1.deep_view(),
                        self.lhs_column@,
                        self.rhs_column@,
                        jc@,
                        self.oob,
                        self.max_value,
                    ),
                ),
                (None, Some(_)) => r matches Err(e) && e is UserError,
                (_, None) => true,
            }),
    {
        match (&self.rhs_fname, &self.join_column) {
            (Some(_), None) => Err(
                Error::UserError(String::from_str("a join column must be supplied with a second source")),
            ),
            (None, Some(_)) => Err(
                Error::UserError(String::from_str("a second source must be supplied with a join column")),
            ),
            (None, None) => single_file_to_hist(
                header,
                rows,
                self.lhs_column.as_str(),
                self.rhs_column.as_str(),
                self.max_value,
                self.sigfigs,
                self.oob,
            ),
            (Some(_), Some(jc)) => match rhs_input {
                None => Err(
                    Error::UserError(String::from_str("rows of the second source were not supplied")),
                ),
                Some((rh, rr)) => dual_file_to_hist(
                    header,
                    rows,
                    &rh,
                    rr,
                    self.lhs_column.as_str(),
                    self.rhs_column.as_str(),
                    jc.as_str(),
                    self.max_value,
                    self.sigfigs,
                    self.oob,
                ),
            },
        }
    }
}

} // verus!
