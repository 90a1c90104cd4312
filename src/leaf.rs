use vstd::prelude::*;

verus! {

/// The kinds of leaf test that carry their own negation flag.
#[derive(Debug, Clone, Copy, PartialEq, Eq, Structural)]
pub enum TestKind {
    Address,
    Envelope,
    Exists,
    Header,
    Size,
    Body,
    Convert,
    Date,
    CurrentDate,
    Duplicate,
    String,
    Environment,
    NotifyMethodCapability,
    ValidNotifyMethod,
    ValidExtList,
    Ihave,
    HasFlag,
    MailboxExists,
    Metadata,
    MetadataExists,
    MailboxIdExists,
    SpamTest,
    VirusTest,
    SpecialUseExists,
    EvalExpression,
    Plugin,
}

/// A numeric or octet-wise relation, as used by `:value` and `:count`.
#[derive(Debug, Clone, Copy, PartialEq, Eq, Structural)]
pub enum Relation {
    Gt,
    Ge,
    Lt,
    Le,
    Eq,
    Ne,
}

/// The comparator a test compares with: octet-wise, or one of the
/// comparators whose outcomes the message context supplies.
#[derive(Debug, Clone, Copy, PartialEq, Eq, Structural)]
pub enum Comparator {
    /// `i;octet`: bytes compared as they are.
    Octet,
    /// `i;ascii-casemap`: ASCII letters compared without case.
    AsciiCasemap,
    /// `i;ascii-numeric`: strings compared as decimal numbers.
    AsciiNumeric,
}

/// The match types whose outcome, for one key and one value, a comparator
/// or pattern engine decides.
#[derive(Debug, Clone, Copy, PartialEq, Eq, Structural)]
pub enum MatchKind {
    Is,
    Contains,
    Value(Relation),
    Matches,
    Regex,
}

/// How the keys of a leaf test are matched against its sources.
#[derive(Debug, Clone, Copy, PartialEq, Eq, Structural)]
pub enum MatchType {
    Is,
    Contains,
    Value(Relation),
    Count(Relation),
    /// Wildcard match; the flag asks for the captured substrings.
    Matches(bool),
    /// Regular-expression match; the flag asks for the captured groups.
    Regex(bool),
    List,
}

/// A leaf test with its parameters: the key strings, the sources (indices of
/// message fields), how they are matched, and its negation flag.
#[derive(Debug, Clone)]
pub struct LeafTest {
    pub kind: TestKind,
    pub keys: Vec<Vec<u8>>,
    pub sources: Vec<usize>,
    pub match_type: MatchType,
    pub comparator: Comparator,
    /// An empty source value counts as absent: it never satisfies a key.
    pub empty_is_absent: bool,
    pub is_not: bool,
}

/// An unknown test name, kept with its position for a later report.
#[derive(Debug, Clone)]
pub struct Invalid {
    pub name: String,
    pub line_num: usize,
    pub line_pos: usize,
}

/// A leaf test as it stands in the instruction stream.
#[derive(Debug, Clone)]
pub enum Test {
    True,
    False,
    Leaf(LeafTest),
    /// The vacation action used as a test: it cannot be negated.
    Vacation,
    /// An unknown test name: it cannot be negated.
    Invalid(Invalid),
}

impl LeafTest {
    /// The same test with its negation flag set to `n`.
    pub open spec fn with_not(self, n: bool) -> LeafTest {
        LeafTest { is_not: n, ..self }
    }
}

impl Test {
    /// The logical negation of a leaf test.
    pub open spec fn negated(self) -> Test {
        match self {
            Test::True => Test::False,
            Test::False => Test::True,
            Test::Leaf(l) => Test::Leaf(l.with_not(true)),
            Test::Vacation => Test::Vacation,
            Test::Invalid(i) => Test::Invalid(i),
        }
    }

    /// Whether negation changes the test.
    pub open spec fn is_negatable(self) -> bool {
        !(self is Vacation || self is Invalid)
    }

    /// Returns the negated test: the two constants swap, a leaf test gets its
    /// negation flag set, and the vacation and invalid tests stay as they are.
    pub fn set_not(self) -> (r: Test)
        ensures
            r == self.negated(),
    {
        match self {
            Test::True => Test::False,
            Test::False => Test::True,
            Test::Leaf(mut l) => {
                l.is_not = true;
                Test::Leaf(l)
            },
            Test::Vacation => Test::Vacation,
            Test::Invalid(i) => Test::Invalid(i),
        }
    }
}

} // verus!
