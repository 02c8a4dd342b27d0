use vstd::prelude::*;

use crate::diagnostic::Severity;
use crate::text::str_equal;

verus! {

/// ASCII uppercase letter.
pub open spec fn is_upper(c: char) -> bool {
    'A' <= c <= 'Z'
}

/// ASCII decimal digit.
pub open spec fn is_digit(c: char) -> bool {
    '0' <= c <= '9'
}

/// The `ASTER-FAMILY-NNNN` (or five-digit `NNNNN`) shape of a stable code: the
/// literal `ASTER`, a dash, a non-empty upper-case family, a dash, and four or
/// five decimal digits, nothing else.
pub open spec fn valid_code_shape(code: Seq<char>) -> bool {
    &&& code.len() >= 6
    &&& code.take(6) == "ASTER-"@
    &&& exists|dash: int|
        #![trigger code[dash]]
        6 < dash < code.len() && code[dash] == '-' && (forall|i: int|
            6 <= i < dash ==> is_upper(#[trigger] code[i])) && (code.len() - dash - 1 == 4
            || code.len() - dash - 1 == 5) && (forall|i: int|
            dash < i < code.len() ==> is_digit(#[trigger] code[i]))
}

/// A validated stable ASTER diagnostic identifier.
#[derive(Clone, Debug, PartialEq, Eq, PartialOrd, Ord)]
pub struct DiagnosticCode(String);

/// Failure to construct a syntactically valid diagnostic code.
#[derive(Clone, Copy, Debug, PartialEq, Eq, Structural)]
pub struct DiagnosticCodeError;

impl DiagnosticCodeError {
    /// The stable human-readable message of this failure.
    pub fn message(&self) -> (text: &'static str)
        ensures
            text@ == "diagnostic codes must have the form ASTER-FAMILY-NNNN"@,
    {
        proof {
            reveal_strlit("diagnostic codes must have the form ASTER-FAMILY-NNNN");
        }
        "diagnostic codes must have the form ASTER-FAMILY-NNNN"
    }
}

impl View for DiagnosticCode {
    type V = Seq<char>;

    closed spec fn view(&self) -> Seq<char> {
        self.0@
    }
}

fn char_at(text: &str, i: usize) -> (c: char)
    requires
        i < text@.len(),
    ensures
        c == text@[i as int],
{
    text.get_char(i)
}

impl DiagnosticCode {
    /// Validates and constructs a diagnostic code.
    pub fn new(code: &str) -> (result: Result<DiagnosticCode, DiagnosticCodeError>)
        ensures
            valid_code_shape(code@) ==> (result matches Ok(c) && c@ == code@),
            !valid_code_shape(code@) ==> result == Err::<DiagnosticCode, DiagnosticCodeError>(
                DiagnosticCodeError,
            ),
    {
        proof {
            reveal_strlit("ASTER-");
        }
        let n = code.unicode_len();
        if n < 6 || char_at(code, 0) != 'A' || char_at(code, 1) != 'S' || char_at(code, 2) != 'T'
            || char_at(code, 3) != 'E' || char_at(code, 4) != 'R' || char_at(code, 5) != '-' {
            proof {
                if code@.len() >= 6 && code@.take(6) == "ASTER-"@ {
                    assert(code@.take(6)[0] == 'A');
                    assert(code@.take(6)[1] == 'S');
                    assert(code@.take(6)[2] == 'T');
                    assert(code@.take(6)[3] == 'E');
                    assert(code@.take(6)[4] == 'R');
                    assert(code@.take(6)[5] == '-');
                }
            }
            return Err(DiagnosticCodeError);
        }
        assert(code@.take(6) =~= "ASTER-"@);
        let mut dash: usize = 6;
        while dash < n && is_upper_char(char_at(code, dash))
            invariant
                n == code@.len(),
                6 <= dash <= n,
                forall|i: int| 6 <= i < dash ==> is_upper(#[trigger] code@[i]),
            decreases n - dash,
        {
            dash = dash + 1;
        }
        // `dash` is the first position after the family that is not an upper-case letter.
        if dash == 6 || dash >= n || char_at(code, dash) != '-' {
            proof {
                if valid_code_shape(code@) {
                    let d = choose|d: int|
                        #![trigger code@[d]]
                        6 < d < code@.len() && code@[d] == '-' && (forall|i: int|
                            6 <= i < d ==> is_upper(#[trigger] code@[i])) && (code@.len() - d - 1
                            == 4 || code@.len() - d - 1 == 5) && (forall|i: int|
                            d < i < code@.len() ==> is_digit(#[trigger] code@[i]));
                    if d < dash {
                        assert(is_upper(code@[d]));
                    } else if d > dash {
                        assert(is_upper(code@[dash as int]));
                    }
                }
            }
            return Err(DiagnosticCodeError);
        }
        let digits = n - dash - 1;
        let mut all_digits = digits == 4 || digits == 5;
        let mut k: usize = dash + 1;
        while k < n && all_digits
            invariant
                n == code@.len(),
                dash < k <= n,
                all_digits ==> forall|i: int| dash < i < k ==> is_digit(#[trigger] code@[i]),
                all_digits ==> (n - dash - 1 == 4 || n - dash - 1 == 5),
                !all_digits ==> !(n - dash - 1 == 4 || n - dash - 1 == 5) || exists|i: int|
                    dash < i < n && !is_digit(#[trigger] code@[i]),
            decreases n - k,
        {
            let c = char_at(code, k);
            if !('0' <= c && c <= '9') {
                all_digits = false;
            }
            k = k + 1;
        }
        proof {
            if valid_code_shape(code@) {
                let d = choose|d: int|
                    #![trigger code@[d]]
                    6 < d < code@.len() && code@[d] == '-' && (forall|i: int|
                        6 <= i < d ==> is_upper(#[trigger] code@[i])) && (code@.len() - d - 1 == 4
                        || code@.len() - d - 1 == 5) && (forall|i: int|
                        d < i < code@.len() ==> is_digit(#[trigger] code@[i]));
                if d < dash {
                    assert(is_upper(code@[d]));
                } else if d > dash {
                    assert(is_upper(code@[dash as int]));
                }
            }
            if all_digits {
                assert(code@[dash as int] == '-');
                assert(valid_code_shape(code@));
            }
        }
        if !all_digits {
            return Err(DiagnosticCodeError);
        }
        Ok(DiagnosticCode(code.to_owned()))
    }

    /// Returns the stable textual identifier.
    pub fn as_str(&self) -> (text: &str)
        ensures
            text@ == self@,
    {
        self.0.as_str()
    }
}

fn is_upper_char(c: char) -> (upper: bool)
    ensures
        upper == is_upper(c),
{
    'A' <= c && c <= 'Z'
}

/// Documentation consumed by `aster explain`.
pub struct Explanation {
    /// Stable identifier.
    pub code: DiagnosticCode,
    /// Default severity.
    pub severity: Severity,
    /// What the diagnostic means.
    pub meaning: &'static str,
    /// Typical cause.
    pub cause: &'static str,
    /// Safe remediation guidance.
    pub remediation: &'static str,
}

/// The registered explanation texts (meaning, cause, remediation) of a code.
pub open spec fn registered_explanation(code: Seq<char>) -> Option<(Seq<char>, Seq<char>, Seq<char>)> {
    if code == "ASTER-PARSE-0001"@ {
        Some(
            (
                "the source does not conform to the ASTER 0.1 grammar"@,
                "an unexpected or malformed token was encountered"@,
                "correct the token at the reported source span"@,
            ),
        )
    } else if code == "ASTER-NAME-1001"@ {
        Some(
            (
                "a referenced name has no declaration in its namespace"@,
                "the name is misspelled or absent"@,
                "declare the symbol or use an existing declared name"@,
            ),
        )
    } else if code == "ASTER-TYPE-2001"@ {
        Some(
            (
                "candidate data was used before validation"@,
                "Candidate<T> intentionally has no value projection"@,
                "validate candidate with a compatible validator to obtain Checked<T>"@,
            ),
        )
    } else {
        None
    }
}

/// Looks up checked-in documentation for a registered diagnostic code.
pub fn explain(code: &str) -> (explanation: Option<Explanation>)
    ensures
        registered_explanation(code@) matches Some(texts) ==> (explanation matches Some(e)
            && e.code@ == code@ && e.severity == Severity::Error && e.meaning@ == texts.0
            && e.cause@ == texts.1 && e.remediation@ == texts.2),
        registered_explanation(code@) is None ==> explanation is None,
{
    let (meaning, cause, remediation): (&'static str, &'static str, &'static str) = if str_equal(
        code,
        "ASTER-PARSE-0001",
    ) {
        (
            "the source does not conform to the ASTER 0.1 grammar",
            "an unexpected or malformed token was encountered",
            "correct the token at the reported source span",
        )
    } else if str_equal(code, "ASTER-NAME-1001") {
        (
            "a referenced name has no declaration in its namespace",
            "the name is misspelled or absent",
            "declare the symbol or use an existing declared name",
        )
    } else if str_equal(code, "ASTER-TYPE-2001") {
        (
            "candidate data was used before validation",
            "Candidate<T> intentionally has no value projection",
            "validate candidate with a compatible validator to obtain Checked<T>",
        )
    } else {
        return None;
    };
    proof {
        reveal_strlit("ASTER-PARSE-0001");
        reveal_strlit("ASTER-NAME-1001");
        reveal_strlit("ASTER-TYPE-2001");
        reveal_strlit("ASTER-");
        reveal_strlit("the source does not conform to the ASTER 0.1 grammar");
        reveal_strlit("an unexpected or malformed token was encountered");
        reveal_strlit("correct the token at the reported source span");
        reveal_strlit("a referenced name has no declaration in its namespace");
        reveal_strlit("the name is misspelled or absent");
        reveal_strlit("declare the symbol or use an existing declared name");
        reveal_strlit("candidate data was used before validation");
        reveal_strlit("Candidate<T> intentionally has no value projection");
        reveal_strlit("validate candidate with a compatible validator to obtain Checked<T>");
        assert(valid_code_shape(code@)) by {
            assert(code@.take(6) =~= "ASTER-"@);
            if code@ == "ASTER-PARSE-0001"@ {
                assert(code@[11] == '-');
            } else if code@ == "ASTER-NAME-1001"@ {
                assert(code@[10] == '-');
            } else {
                assert(code@[10] == '-');
            }
        }
    }
    let code = match DiagnosticCode::new(code) {
        Ok(code) => code,
        Err(_) => return None,
    };
    Some(Explanation { code, severity: Severity::Error, meaning, cause, remediation })
}


/// Registered diagnostic identities emitted by the syntax and semantic layers.
#[derive(Clone, Copy, Debug, PartialEq, Eq, Structural)]
pub enum KnownDiagnosticCode {
    /// The source does not conform to the grammar.
    ParseError,
    /// A string literal holds an invalid escape or control character.
    InvalidStringEscape,
    /// A character that starts no token.
    UnknownToken,
    /// An integer literal outside the signed 64-bit range.
    InvalidInteger,
    /// A block comment without its closing delimiter.
    UnterminatedBlockComment,
    /// A string literal without its closing quote.
    UnterminatedString,
    /// A block string without its closing triple quote.
    UnterminatedBlockString,
    /// A commit without `with <permit>`.
    CommitWithoutPermit,
    /// A prompt instruction that is not a static block string.
    DynamicPromptInstruction,
    /// A referenced name has no declaration in its namespace.
    UnknownName,
    /// A name or field is declared or supplied more than once.
    DuplicateDeclaration,
    /// Candidate data used before validation.
    CandidateBeforeValidation,
    /// An expression or declaration does not have the required type or shape.
    TypeMismatch,
    /// A write tool without a usable idempotency key.
    MissingIdempotency,
    /// A permit committed with a proposal of another action.
    PermitActionMismatch,
    /// A write tool used through `observe`.
    WriteToolObserved,
    /// A read tool used through `propose`.
    ReadToolProposed,
    /// A tool called as an ordinary function.
    DirectToolCall,
    /// An external effect inside a pure context.
    EffectInPureContext,
    /// A callable that reaches itself through calls.
    Recursion,
    /// A policy without a final unconditional rule.
    NonTotalPolicy,
    /// A permit used after it was consumed.
    PermitUseAfterMove,
    /// A proposal used after it was consumed.
    ProposalUseAfterMove,
    /// An effect whose capability is not declared.
    MissingCapability,
    /// Secret data flowing into prompt data.
    SecretToModel,
    /// A Secret type outside a secret tool parameter.
    SecretInState,
    /// A budget entry with an unknown dimension.
    UnknownBudgetDimension,
    /// A budget dimension declared twice.
    DuplicateBudgetDimension,
}

/// The stable textual code of each registered identity.
pub open spec fn known_code_text(code: KnownDiagnosticCode) -> Seq<char> {
    match code {
        KnownDiagnosticCode::ParseError => "ASTER-PARSE-0001"@,
        KnownDiagnosticCode::InvalidStringEscape => "ASTER-PARSE-0002"@,
        KnownDiagnosticCode::UnknownToken => "ASTER-PARSE-0003"@,
        KnownDiagnosticCode::InvalidInteger => "ASTER-PARSE-0004"@,
        KnownDiagnosticCode::UnterminatedBlockComment => "ASTER-PARSE-0005"@,
        KnownDiagnosticCode::UnterminatedString => "ASTER-PARSE-0006"@,
        KnownDiagnosticCode::UnterminatedBlockString => "ASTER-PARSE-0007"@,
        KnownDiagnosticCode::CommitWithoutPermit => "ASTER-TYPE-2003"@,
        KnownDiagnosticCode::DynamicPromptInstruction => "ASTER-PROMPT-7001"@,
        KnownDiagnosticCode::UnknownName => "ASTER-NAME-1001"@,
        KnownDiagnosticCode::DuplicateDeclaration => "ASTER-NAME-1002"@,
        KnownDiagnosticCode::CandidateBeforeValidation => "ASTER-TYPE-2001"@,
        KnownDiagnosticCode::TypeMismatch => "ASTER-TYPE-2002"@,
        KnownDiagnosticCode::MissingIdempotency => "ASTER-TYPE-2004"@,
        KnownDiagnosticCode::PermitActionMismatch => "ASTER-TYPE-2005"@,
        KnownDiagnosticCode::WriteToolObserved => "ASTER-EFFECT-3001"@,
        KnownDiagnosticCode::ReadToolProposed => "ASTER-EFFECT-3002"@,
        KnownDiagnosticCode::DirectToolCall => "ASTER-EFFECT-3003"@,
        KnownDiagnosticCode::EffectInPureContext => "ASTER-EFFECT-3004"@,
        KnownDiagnosticCode::Recursion => "ASTER-EFFECT-3005"@,
        KnownDiagnosticCode::NonTotalPolicy => "ASTER-POLICY-4001"@,
        KnownDiagnosticCode::PermitUseAfterMove => "ASTER-AFFINE-5001"@,
        KnownDiagnosticCode::ProposalUseAfterMove => "ASTER-AFFINE-5002"@,
        KnownDiagnosticCode::MissingCapability => "ASTER-CAP-6001"@,
        KnownDiagnosticCode::SecretToModel => "ASTER-SECRET-8001"@,
        KnownDiagnosticCode::SecretInState => "ASTER-SECRET-8002"@,
        KnownDiagnosticCode::UnknownBudgetDimension => "ASTER-BUDGET-11001"@,
        KnownDiagnosticCode::DuplicateBudgetDimension => "ASTER-BUDGET-11002"@,
    }
}

impl KnownDiagnosticCode {
    /// The diagnostic code of this registered identity.
    pub fn code(&self) -> (code: DiagnosticCode)
        ensures
            code@ == known_code_text(*self),
    {
        let text: &'static str = match self {
            KnownDiagnosticCode::ParseError => "ASTER-PARSE-0001",
            KnownDiagnosticCode::InvalidStringEscape => "ASTER-PARSE-0002",
            KnownDiagnosticCode::UnknownToken => "ASTER-PARSE-0003",
            KnownDiagnosticCode::InvalidInteger => "ASTER-PARSE-0004",
            KnownDiagnosticCode::UnterminatedBlockComment => "ASTER-PARSE-0005",
            KnownDiagnosticCode::UnterminatedString => "ASTER-PARSE-0006",
            KnownDiagnosticCode::UnterminatedBlockString => "ASTER-PARSE-0007",
            KnownDiagnosticCode::CommitWithoutPermit => "ASTER-TYPE-2003",
            KnownDiagnosticCode::DynamicPromptInstruction => "ASTER-PROMPT-7001",
            KnownDiagnosticCode::UnknownName => "ASTER-NAME-1001",
            KnownDiagnosticCode::DuplicateDeclaration => "ASTER-NAME-1002",
            KnownDiagnosticCode::CandidateBeforeValidation => "ASTER-TYPE-2001",
            KnownDiagnosticCode::TypeMismatch => "ASTER-TYPE-2002",
            KnownDiagnosticCode::MissingIdempotency => "ASTER-TYPE-2004",
            KnownDiagnosticCode::PermitActionMismatch => "ASTER-TYPE-2005",
            KnownDiagnosticCode::WriteToolObserved => "ASTER-EFFECT-3001",
            KnownDiagnosticCode::ReadToolProposed => "ASTER-EFFECT-3002",
            KnownDiagnosticCode::DirectToolCall => "ASTER-EFFECT-3003",
            KnownDiagnosticCode::EffectInPureContext => "ASTER-EFFECT-3004",
            KnownDiagnosticCode::Recursion => "ASTER-EFFECT-3005",
            KnownDiagnosticCode::NonTotalPolicy => "ASTER-POLICY-4001",
            KnownDiagnosticCode::PermitUseAfterMove => "ASTER-AFFINE-5001",
            KnownDiagnosticCode::ProposalUseAfterMove => "ASTER-AFFINE-5002",
            KnownDiagnosticCode::MissingCapability => "ASTER-CAP-6001",
            KnownDiagnosticCode::SecretToModel => "ASTER-SECRET-8001",
            KnownDiagnosticCode::SecretInState => "ASTER-SECRET-8002",
            KnownDiagnosticCode::UnknownBudgetDimension => "ASTER-BUDGET-11001",
            KnownDiagnosticCode::DuplicateBudgetDimension => "ASTER-BUDGET-11002",
        };
        DiagnosticCode(String::from_str(text))
    }
}

} // verus!
