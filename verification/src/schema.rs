//! The schema of a note's frontmatter, and what can be wrong with it.
use vstd::prelude::*;
use vstd::string::StringExecFns;
use crate::text::same_text;

verus! {

/// The note types that the schema allows.
pub open spec fn valid_type(s: Seq<char>) -> bool {
    s == "note"@ || s == "term"@ || s == "project"@ || s == "log"@
}

/// The status values that the schema allows.
pub open spec fn valid_status(s: Seq<char>) -> bool {
    s == "active"@ || s == "done"@ || s == "archived"@
}

/// The areas that the schema allows.
pub open spec fn valid_area(s: Seq<char>) -> bool {
    s == "work"@ || s == "tech"@ || s == "life"@ || s == "career"@ || s == "learning"@ || s
        == "reference"@
}

/// Whether `s` is an allowed note type.
pub fn is_valid_type(s: &str) -> (b: bool)
    ensures
        b == valid_type(s@),
{
    same_text(s, "note") || same_text(s, "term") || same_text(s, "project") || same_text(s, "log")
}

/// Whether `s` is an allowed status.
pub fn is_valid_status(s: &str) -> (b: bool)
    ensures
        b == valid_status(s@),
{
    same_text(s, "active") || same_text(s, "done") || same_text(s, "archived")
}

/// Whether `s` is an allowed area.
pub fn is_valid_area(s: &str) -> (b: bool)
    ensures
        b == valid_area(s@),
{
    same_text(s, "work") || same_text(s, "tech") || same_text(s, "life") || same_text(s, "career")
        || same_text(s, "learning") || same_text(s, "reference")
}

/// One way in which a note breaks the schema.
#[derive(Debug)]
pub enum SchemaViolation {
    MissingFrontmatter,
    MissingField(String),
    InvalidType(String),
    InvalidStatus(String),
    InvalidArea(String),
    TooManyTags(usize),
    HierarchicalTag(String),
    NonLowercaseTag(String),
    EmptyGist,
}

/// A violation as plain values.
pub enum ViolationView {
    MissingFrontmatter,
    MissingField(Seq<char>),
    InvalidType(Seq<char>),
    InvalidStatus(Seq<char>),
    InvalidArea(Seq<char>),
    TooManyTags(usize),
    HierarchicalTag(Seq<char>),
    NonLowercaseTag(Seq<char>),
    EmptyGist,
}

impl View for SchemaViolation {
    type V = ViolationView;

    open spec fn view(&self) -> ViolationView {
        match self {
            SchemaViolation::MissingFrontmatter => ViolationView::MissingFrontmatter,
            SchemaViolation::MissingField(s) => ViolationView::MissingField(s@),
            SchemaViolation::InvalidType(s) => ViolationView::InvalidType(s@),
            SchemaViolation::InvalidStatus(s) => ViolationView::InvalidStatus(s@),
            SchemaViolation::InvalidArea(s) => ViolationView::InvalidArea(s@),
            SchemaViolation::TooManyTags(n) => ViolationView::TooManyTags(*n),
            SchemaViolation::HierarchicalTag(s) => ViolationView::HierarchicalTag(s@),
            SchemaViolation::NonLowercaseTag(s) => ViolationView::NonLowercaseTag(s@),
            SchemaViolation::EmptyGist => ViolationView::EmptyGist,
        }
    }
}

/// The views of the violations in `v`.
pub open spec fn violation_views(v: Seq<SchemaViolation>) -> Seq<ViolationView> {
    Seq::new(v.len(), |i: int| v[i]@)
}

impl Clone for SchemaViolation {
    fn clone(&self) -> (r: Self)
        ensures
            r@ == self@,
    {
        match self {
            SchemaViolation::MissingFrontmatter => SchemaViolation::MissingFrontmatter,
            SchemaViolation::MissingField(s) => SchemaViolation::MissingField(s.clone()),
            SchemaViolation::InvalidType(s) => SchemaViolation::InvalidType(s.clone()),
            SchemaViolation::InvalidStatus(s) => SchemaViolation::InvalidStatus(s.clone()),
            SchemaViolation::InvalidArea(s) => SchemaViolation::InvalidArea(s.clone()),
            SchemaViolation::TooManyTags(n) => SchemaViolation::TooManyTags(*n),
            SchemaViolation::HierarchicalTag(s) => SchemaViolation::HierarchicalTag(s.clone()),
            SchemaViolation::NonLowercaseTag(s) => SchemaViolation::NonLowercaseTag(s.clone()),
            SchemaViolation::EmptyGist => SchemaViolation::EmptyGist,
        }
    }
}

impl SchemaViolation {
    /// Whether `self` and `other` are the same violation of the same thing.
    pub fn same(&self, other: &SchemaViolation) -> (b: bool)
        ensures
            b == (self@ == other@),
    {
        match (self, other) {
            (SchemaViolation::MissingFrontmatter, SchemaViolation::MissingFrontmatter) => true,
            (SchemaViolation::MissingField(a), SchemaViolation::MissingField(b)) => *a == *b,
            (SchemaViolation::InvalidType(a), SchemaViolation::InvalidType(b)) => *a == *b,
            (SchemaViolation::InvalidStatus(a), SchemaViolation::InvalidStatus(b)) => *a == *b,
            (SchemaViolation::InvalidArea(a), SchemaViolation::InvalidArea(b)) => *a == *b,
            (SchemaViolation::TooManyTags(a), SchemaViolation::TooManyTags(b)) => *a == *b,
            (SchemaViolation::HierarchicalTag(a), SchemaViolation::HierarchicalTag(b)) => *a == *b,
            (SchemaViolation::NonLowercaseTag(a), SchemaViolation::NonLowercaseTag(b)) => *a == *b,
            (SchemaViolation::EmptyGist, SchemaViolation::EmptyGist) => true,
            _ => false,
        }
    }
}

/// The decimal digit for `d`.
pub open spec fn digit(d: int) -> char {
    if d == 0 {
        '0'
    } else if d == 1 {
        '1'
    } else if d == 2 {
        '2'
    } else if d == 3 {
        '3'
    } else if d == 4 {
        '4'
    } else if d == 5 {
        '5'
    } else if d == 6 {
        '6'
    } else if d == 7 {
        '7'
    } else if d == 8 {
        '8'
    } else {
        '9'
    }
}

/// The decimal numeral of `n`, without leading zeros.
pub open spec fn decimal(n: nat) -> Seq<char>
    decreases n,
{
    if n < 10 {
        seq![digit(n as int)]
    } else {
        decimal(n / 10).push(digit((n % 10) as int))
    }
}

fn digit_char(d: u64) -> (c: char)
    requires
        d < 10,
    ensures
        c == digit(d as int),
{
    if d == 0 {
        '0'
    } else if d == 1 {
        '1'
    } else if d == 2 {
        '2'
    } else if d == 3 {
        '3'
    } else if d == 4 {
        '4'
    } else if d == 5 {
        '5'
    } else if d == 6 {
        '6'
    } else if d == 7 {
        '7'
    } else if d == 8 {
        '8'
    } else {
        '9'
    }
}

/// The decimal numeral of `n`, with a `-` before it where `n` is negative.
pub open spec fn signed_decimal(n: int) -> Seq<char> {
    if n < 0 {
        seq!['-'] + decimal((-n) as nat)
    } else {
        decimal(n as nat)
    }
}

/// The decimal numeral of `n`.
pub fn signed_decimal_string(n: i64) -> (r: String)
    ensures
        r@ == signed_decimal(n as int),
{
    if n < 0 {
        let magnitude: u64 = ((-(n + 1)) as u64) + 1;
        proof {
            reveal_strlit("-");
            assert("-"@ =~= seq!['-']);
        }
        String::from_str("-").concat(decimal_string(magnitude).as_str())
    } else {
        decimal_string(n as u64)
    }
}

/// The decimal numeral of `n`.
pub fn decimal_string(n: u64) -> (r: String)
    ensures
        r@ == decimal(n as nat),
    decreases n,
{
    if n < 10 {
        let mut r = String::new();
        r.push(digit_char(n));
        assert(r@ =~= seq![digit(n as int)]);
        r
    } else {
        let mut r = decimal_string(n / 10);
        r.push(digit_char(n % 10));
        r
    }
}

/// The sentence that describes a violation.
pub open spec fn message_of(v: ViolationView) -> Seq<char> {
    match v {
        ViolationView::MissingFrontmatter => "Missing YAML frontmatter"@,
        ViolationView::MissingField(f) => "Missing required field: "@ + f,
        ViolationView::InvalidType(t) => "Invalid type '"@ + t + "' (must be: note|term|project|log)"@,
        ViolationView::InvalidStatus(s) => "Invalid status '"@ + s
            + "' (must be: active|done|archived)"@,
        ViolationView::InvalidArea(a) => "Invalid area '"@ + a
            + "' (must be: work|tech|life|career|learning|reference)"@,
        ViolationView::TooManyTags(n) => "Too many tags: "@ + decimal(n as nat) + " (max 5)"@,
        ViolationView::HierarchicalTag(t) => "Hierarchical tag not allowed: "@ + t,
        ViolationView::NonLowercaseTag(t) => "Tag must be lowercase: "@ + t,
        ViolationView::EmptyGist => "Gist field is empty"@,
    }
}

impl SchemaViolation {
    /// The sentence that describes the violation.
    pub fn message(&self) -> (r: String)
        ensures
            r@ == message_of(self@),
    {
        match self {
            SchemaViolation::MissingFrontmatter => String::from_str("Missing YAML frontmatter"),
            SchemaViolation::MissingField(f) => String::from_str("Missing required field: ").concat(
                f.as_str(),
            ),
            SchemaViolation::InvalidType(t) => String::from_str("Invalid type '").concat(
                t.as_str(),
            ).concat("' (must be: note|term|project|log)"),
            SchemaViolation::InvalidStatus(s) => String::from_str("Invalid status '").concat(
                s.as_str(),
            ).concat("' (must be: active|done|archived)"),
            SchemaViolation::InvalidArea(a) => String::from_str("Invalid area '").concat(
                a.as_str(),
            ).concat("' (must be: work|tech|life|career|learning|reference)"),
            SchemaViolation::TooManyTags(n) => String::from_str("Too many tags: ").concat(
                decimal_string(*n as u64).as_str(),
            ).concat(" (max 5)"),
            SchemaViolation::HierarchicalTag(t) => String::from_str(
                "Hierarchical tag not allowed: ",
            ).concat(t.as_str()),
            SchemaViolation::NonLowercaseTag(t) => String::from_str("Tag must be lowercase: ").concat(
                t.as_str(),
            ),
            SchemaViolation::EmptyGist => String::from_str("Gist field is empty"),
        }
    }
}

impl PartialEq for SchemaViolation {
    fn eq(&self, other: &Self) -> (r: bool) {
        self.same(other)
    }
}

impl vstd::std_specs::cmp::PartialEqSpecImpl for SchemaViolation {
    open spec fn obeys_eq_spec() -> bool {
        true
    }

    open spec fn eq_spec(&self, other: &Self) -> bool {
        self@ == other@
    }
}

} // verus!
