//! Errors that the proof system reports.
use vstd::prelude::*;
#[allow(unused_imports)]
use vstd::string::*;

verus! {

/// Errors returned by the provers and the verifiers.
#[derive(Debug, PartialEq, Eq)]
pub enum SpartanError {
    /// An input has a length that the operation does not accept.
    InvalidInputLength {
        /// What was expected.
        reason: String,
    },
    /// A witness has a length that does not fit its constraint system.
    InvalidWitnessLength,
    /// A matrix has an entry outside of its bounds.
    InvalidIndex,
    /// An evaluation argument is not acceptable.
    InvalidPCS,
    /// A sum-check proof is not acceptable.
    InvalidSumcheckProof,
    /// The transcript cannot produce another challenge.
    InternalTranscriptError,
    /// A component is not set up as it must be.
    InternalError {
        /// What is wrong.
        reason: String,
    },
    /// An instance does not fit the constraint system that it belongs to.
    ProofVerifyError {
        /// What does not fit.
        reason: String,
    },
    /// A circuit does not give what a proof needs.
    SynthesisError {
        /// What is missing.
        reason: String,
    },
}

/// What an error says.
pub enum ErrorModel {
    /// An input has a length that the operation does not accept.
    InvalidInputLength(Seq<char>),
    /// A witness has a length that does not fit its constraint system.
    InvalidWitnessLength,
    /// A matrix has an entry outside of its bounds.
    InvalidIndex,
    /// An evaluation argument is not acceptable.
    InvalidPCS,
    /// A sum-check proof is not acceptable.
    InvalidSumcheckProof,
    /// The transcript cannot produce another challenge.
    InternalTranscriptError,
    /// A component is not set up as it must be.
    InternalError(Seq<char>),
    /// An instance does not fit the constraint system that it belongs to.
    ProofVerifyError(Seq<char>),
    /// A circuit does not give what a proof needs.
    SynthesisError(Seq<char>),
}

impl View for SpartanError {
    type V = ErrorModel;

    open spec fn view(&self) -> ErrorModel {
        match *self {
            SpartanError::InvalidInputLength { reason } => ErrorModel::InvalidInputLength(reason@),
            SpartanError::InvalidWitnessLength => ErrorModel::InvalidWitnessLength,
            SpartanError::InvalidIndex => ErrorModel::InvalidIndex,
            SpartanError::InvalidPCS => ErrorModel::InvalidPCS,
            SpartanError::InvalidSumcheckProof => ErrorModel::InvalidSumcheckProof,
            SpartanError::InternalTranscriptError => ErrorModel::InternalTranscriptError,
            SpartanError::InternalError { reason } => ErrorModel::InternalError(reason@),
            SpartanError::ProofVerifyError { reason } => ErrorModel::ProofVerifyError(reason@),
            SpartanError::SynthesisError { reason } => ErrorModel::SynthesisError(reason@),
        }
    }
}

/// What a fallible operation reports, with errors taken by what they say.
pub open spec fn outcome<T>(r: Result<T, SpartanError>) -> Result<T, ErrorModel> {
    match r {
        Ok(x) => Ok(x),
        Err(e) => Err(e@),
    }
}

/// What a fallible operation reports, with values and errors taken by what they say.
pub open spec fn outcome_view<T: View>(r: Result<T, SpartanError>) -> Result<T::V, ErrorModel> {
    match r {
        Ok(x) => Ok(x@),
        Err(e) => Err(e@),
    }
}

/// The decimal digit `d`.
pub open spec fn digit(d: nat) -> Seq<char> {
    if d == 0 {
        "0"@
    } else if d == 1 {
        "1"@
    } else if d == 2 {
        "2"@
    } else if d == 3 {
        "3"@
    } else if d == 4 {
        "4"@
    } else if d == 5 {
        "5"@
    } else if d == 6 {
        "6"@
    } else if d == 7 {
        "7"@
    } else if d == 8 {
        "8"@
    } else {
        "9"@
    }
}

/// `n` in decimal notation.
pub open spec fn decimal(n: nat) -> Seq<char>
    decreases n,
{
    if n < 10 {
        digit(n)
    } else {
        decimal(n / 10) + digit(n % 10)
    }
}

/// Appends `n` in decimal notation.
pub(crate) fn push_decimal(text: &mut String, n: usize)
    ensures
        final(text)@ == old(text)@ + decimal(n as nat),
    decreases n,
{
    if n >= 10 {
        push_decimal(text, n / 10);
    }
    let d: usize = n % 10;
    let ghost before = text@;
    text.append(
        if d == 0 {
            "0"
        } else if d == 1 {
            "1"
        } else if d == 2 {
            "2"
        } else if d == 3 {
            "3"
        } else if d == 4 {
            "4"
        } else if d == 5 {
            "5"
        } else if d == 6 {
            "6"
        } else if d == 7 {
            "7"
        } else if d == 8 {
            "8"
        } else {
            "9"
        },
    );
    assert(text@ =~= old(text)@ + decimal(n as nat));
}

/// Decimal notation: a number below ten is written as one digit, the character as far behind `0` as
/// the number says, and a larger one as the number without its last digit, followed by that digit.
pub proof fn law_decimal(n: nat, d: nat)
    requires
        d < 10,
    ensures
        decimal(d).len() == 1,
        decimal(d)[0] as u32 == 48 + d,
        n > 0 ==> decimal(10 * n + d) == decimal(n) + decimal(d),
{
    reveal_strlit("0");
    reveal_strlit("1");
    reveal_strlit("2");
    reveal_strlit("3");
    reveal_strlit("4");
    reveal_strlit("5");
    reveal_strlit("6");
    reveal_strlit("7");
    reveal_strlit("8");
    reveal_strlit("9");
    assert((10 * n + d) / 10 == n);
    assert((10 * n + d) % 10 == d);
}

} // verus!
