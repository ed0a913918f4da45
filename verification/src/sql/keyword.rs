use crate::text::chars_of;
use vstd::prelude::*;

verus! {

/// The reserved words of the SQL dialect. They are matched without regard to case.
#[derive(Debug, Clone, Copy, PartialEq, Eq, Structural)]
pub enum Keyword {
    Create,
    Table,
    Drop,
    Alter,
    Constraint,
    Primary,
    Key,
    References,
    Unique,
    Check,
    Default,
    Select,
    Insert,
    Update,
    Delete,
    Where,
    From,
    Into,
    Values,
    As,
    Join,
    Inner,
    Left,
    Right,
    On,
    /// `INT` or `INTEGER`.
    Integer,
    Float,
    Varchar,
    /// `TEXT` or `STRING`.
    Text,
    Timestamp,
    Date,
    /// `BOOL` or `BOOLEAN`.
    Boolean,
    True,
    False,
    And,
    Or,
    Is,
    Not,
    In,
    Between,
    Like,
    Null,
    Distinct,
}

/// The code of `c`, with the ASCII lower-case letters mapped to upper case.
pub open spec fn upper_code(c: char) -> u32 {
    if 'a' <= c <= 'z' {
        (c as u32 - 32) as u32
    } else {
        c as u32
    }
}

/// Whether `word` is `spelling` but for the case of its ASCII letters.
pub open spec fn spells(word: Seq<char>, spelling: Seq<char>) -> bool {
    &&& word.len() == spelling.len()
    &&& forall|i: int| 0 <= i < word.len() ==> upper_code(#[trigger] word[i]) == spelling[i] as u32
}

/// The keyword that `word` spells, if it spells one.
pub open spec fn keyword_of(word: Seq<char>) -> Option<Keyword> {
    if spells(word, "CREATE"@) {
        Some(Keyword::Create)
    } else if spells(word, "TABLE"@) {
        Some(Keyword::Table)
    } else if spells(word, "DROP"@) {
        Some(Keyword::Drop)
    } else if spells(word, "ALTER"@) {
        Some(Keyword::Alter)
    } else if spells(word, "CONSTRAINT"@) {
        Some(Keyword::Constraint)
    } else if spells(word, "PRIMARY"@) {
        Some(Keyword::Primary)
    } else if spells(word, "KEY"@) {
        Some(Keyword::Key)
    } else if spells(word, "REFERENCES"@) {
        Some(Keyword::References)
    } else if spells(word, "UNIQUE"@) {
        Some(Keyword::Unique)
    } else if spells(word, "CHECK"@) {
        Some(Keyword::Check)
    } else if spells(word, "DEFAULT"@) {
        Some(Keyword::Default)
    } else if spells(word, "SELECT"@) {
        Some(Keyword::Select)
    } else if spells(word, "INSERT"@) {
        Some(Keyword::Insert)
    } else if spells(word, "UPDATE"@) {
        Some(Keyword::Update)
    } else if spells(word, "DELETE"@) {
        Some(Keyword::Delete)
    } else if spells(word, "WHERE"@) {
        Some(Keyword::Where)
    } else if spells(word, "FROM"@) {
        Some(Keyword::From)
    } else if spells(word, "INTO"@) {
        Some(Keyword::Into)
    } else if spells(word, "VALUES"@) {
        Some(Keyword::Values)
    } else if spells(word, "AS"@) {
        Some(Keyword::As)
    } else if spells(word, "JOIN"@) {
        Some(Keyword::Join)
    } else if spells(word, "INNER"@) {
        Some(Keyword::Inner)
    } else if spells(word, "LEFT"@) {
        Some(Keyword::Left)
    } else if spells(word, "RIGHT"@) {
        Some(Keyword::Right)
    } else if spells(word, "ON"@) {
        Some(Keyword::On)
    } else if spells(word, "INT"@) || spells(word, "INTEGER"@) {
        Some(Keyword::Integer)
    } else if spells(word, "FLOAT"@) {
        Some(Keyword::Float)
    } else if spells(word, "VARCHAR"@) {
        Some(Keyword::Varchar)
    } else if spells(word, "TEXT"@) || spells(word, "STRING"@) {
        Some(Keyword::Text)
    } else if spells(word, "TIMESTAMP"@) {
        Some(Keyword::Timestamp)
    } else if spells(word, "DATE"@) {
        Some(Keyword::Date)
    } else if spells(word, "BOOL"@) || spells(word, "BOOLEAN"@) {
        Some(Keyword::Boolean)
    } else if spells(word, "TRUE"@) {
        Some(Keyword::True)
    } else if spells(word, "FALSE"@) {
        Some(Keyword::False)
    } else if spells(word, "AND"@) {
        Some(Keyword::And)
    } else if spells(word, "OR"@) {
        Some(Keyword::Or)
    } else if spells(word, "IS"@) {
        Some(Keyword::Is)
    } else if spells(word, "NOT"@) {
        Some(Keyword::Not)
    } else if spells(word, "IN"@) {
        Some(Keyword::In)
    } else if spells(word, "BETWEEN"@) {
        Some(Keyword::Between)
    } else if spells(word, "LIKE"@) {
        Some(Keyword::Like)
    } else if spells(word, "NULL"@) {
        Some(Keyword::Null)
    } else if spells(word, "DISTINCT"@) {
        Some(Keyword::Distinct)
    } else {
        None
    }
}

/// Whether `word` is `spelling` but for the case of its ASCII letters.
fn word_is(word: &[char], spelling: &str) -> (same: bool)
    ensures
        same == spells(word@, spelling@),
{
    let letters = chars_of(spelling);
    if word.len() != letters.len() {
        return false;
    }
    let n: usize = word.len();
    let mut i: usize = 0;
    while i < n
        invariant
            i <= n,
            n == word@.len(),
            n == letters@.len(),
            letters@ == spelling@,
            forall|k: int| 0 <= k < i ==> upper_code(#[trigger] word@[k]) == letters@[k] as u32,
        decreases n - i,
    {
        let c: char = word[i];
        let code: u32 = if 'a' <= c && c <= 'z' {
            c as u32 - 32
        } else {
            c as u32
        };
        if code != letters[i] as u32 {
            return false;
        }
        i += 1;
    }
    true
}

impl Keyword {
    /// The keyword that `word` spells in any mix of upper and lower case.
    pub fn from_word(word: &[char]) -> (keyword: Option<Keyword>)
        ensures
            keyword == keyword_of(word@),
    {
        if word_is(word, "CREATE") {
            Some(Keyword::Create)
        } else if word_is(word, "TABLE") {
            Some(Keyword::Table)
        } else if word_is(word, "DROP") {
            Some(Keyword::Drop)
        } else if word_is(word, "ALTER") {
            Some(Keyword::Alter)
        } else if word_is(word, "CONSTRAINT") {
            Some(Keyword::Constraint)
        } else if word_is(word, "PRIMARY") {
            Some(Keyword::Primary)
        } else if word_is(word, "KEY") {
            Some(Keyword::Key)
        } else if word_is(word, "REFERENCES") {
            Some(Keyword::References)
        } else if word_is(word, "UNIQUE") {
            Some(Keyword::Unique)
        } else if word_is(word, "CHECK") {
            Some(Keyword::Check)
        } else if word_is(word, "DEFAULT") {
            Some(Keyword::Default)
        } else if word_is(word, "SELECT") {
            Some(Keyword::Select)
        } else if word_is(word, "INSERT") {
            Some(Keyword::Insert)
        } else if word_is(word, "UPDATE") {
            Some(Keyword::Update)
        } else if word_is(word, "DELETE") {
            Some(Keyword::Delete)
        } else if word_is(word, "WHERE") {
            Some(Keyword::Where)
        } else if word_is(word, "FROM") {
            Some(Keyword::From)
        } else if word_is(word, "INTO") {
            Some(Keyword::Into)
        } else if word_is(word, "VALUES") {
            Some(Keyword::Values)
        } else if word_is(word, "AS") {
            Some(Keyword::As)
        } else if word_is(word, "JOIN") {
            Some(Keyword::Join)
        } else if word_is(word, "INNER") {
            Some(Keyword::Inner)
        } else if word_is(word, "LEFT") {
            Some(Keyword::Left)
        } else if word_is(word, "RIGHT") {
            Some(Keyword::Right)
        } else if word_is(word, "ON") {
            Some(Keyword::On)
        } else if word_is(word, "INT") || word_is(word, "INTEGER") {
            Some(Keyword::Integer)
        } else if word_is(word, "FLOAT") {
            Some(Keyword::Float)
        } else if word_is(word, "VARCHAR") {
            Some(Keyword::Varchar)
        } else if word_is(word, "TEXT") || word_is(word, "STRING") {
            Some(Keyword::Text)
        } else if word_is(word, "TIMESTAMP") {
            Some(Keyword::Timestamp)
        } else if word_is(word, "DATE") {
            Some(Keyword::Date)
        } else if word_is(word, "BOOL") || word_is(word, "BOOLEAN") {
            Some(Keyword::Boolean)
        } else if word_is(word, "TRUE") {
            Some(Keyword::True)
        } else if word_is(word, "FALSE") {
            Some(Keyword::False)
        } else if word_is(word, "AND") {
            Some(Keyword::And)
        } else if word_is(word, "OR") {
            Some(Keyword::Or)
        } else if word_is(word, "IS") {
            Some(Keyword::Is)
        } else if word_is(word, "NOT") {
            Some(Keyword::Not)
        } else if word_is(word, "IN") {
            Some(Keyword::In)
        } else if word_is(word, "BETWEEN") {
            Some(Keyword::Between)
        } else if word_is(word, "LIKE") {
            Some(Keyword::Like)
        } else if word_is(word, "NULL") {
            Some(Keyword::Null)
        } else if word_is(word, "DISTINCT") {
            Some(Keyword::Distinct)
        } else {
            None
        }
    }

    /// Whether the keyword is `TRUE` or `FALSE`.
    pub fn is_bool_literal(self) -> (b: bool)
        ensures
            b == (self is True || self is False),
    {
        matches!(self, Keyword::True | Keyword::False)
    }

    /// Whether the keyword is `TRUE` or `FALSE`.
    pub fn is_bool(self) -> (b: bool)
        ensures
            b == (self is True || self is False),
    {
        self.is_bool_literal()
    }

    /// Whether the keyword names a column type that takes no size.
    pub fn is_type(self) -> (b: bool)
        ensures
            b == (self is Integer || self is Float || self is Text || self is Timestamp
                || self is Date || self is Boolean),
    {
        matches!(
            self,
            Keyword::Integer | Keyword::Float | Keyword::Text | Keyword::Timestamp | Keyword::Date
                | Keyword::Boolean
        )
    }
}

} // verus!
