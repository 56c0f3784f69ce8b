use vstd::prelude::*;

verus! {

/// The kinds of the nodes and tokens of a Lico syntax tree.
///
/// Tokens come first (trivia, literals, keywords, punctuation, identifiers), nodes after them.
/// The position of a kind in this list is its raw number (`as_u8`).
#[allow(non_camel_case_types)]
#[derive(Clone, Copy, PartialEq, Eq, PartialOrd, Ord, Hash, Debug, Structural)]
pub enum SyntaxKind {
    ERROR,
    COMMENT,
    WHITESPACE,
    INT,
    FLOAT,
    STRING,
    TRUE,
    FALSE,
    NIL,
    VAR_KW,
    FUNC_KW,
    IF_KW,
    THEN_KW,
    ELIF_KW,
    ELSE_KW,
    FOR_KW,
    WHILE_KW,
    IN_KW,
    DO_KW,
    END_KW,
    RETURN_KW,
    BREAK_KW,
    CONTINUE_KW,
    AND_KW,
    OR_KW,
    NOT_KW,
    PLUS,
    MINUS,
    STAR,
    SLASH,
    PERCENT,
    AMP,
    PIPE,
    CARET,
    TILDE,
    BANG,
    EQ,
    LT,
    GT,
    DOT,
    AT,
    COMMA,
    COLON,
    OPENPAREN,
    CLOSEPAREN,
    OPENBRACE,
    CLOSEBRACE,
    OPENBRACKET,
    CLOSEBRACKET,
    ARROW,
    BANGEQ,
    EQ2,
    LT2,
    LTEQ,
    GT2,
    GTEQ,
    DOT2,
    IDENT,
    PROGRAM,
    VAR_STMT,
    FUNC_STMT,
    FOR_STMT,
    WHILE_STMT,
    RETURN_STMT,
    BREAK_STMT,
    CONTINUE_STMT,
    EXPR_STMT,
    ATTR_STMT,
    IF_EXPR,
    DO_EXPR,
    CALL_EXPR,
    BINARY_EXPR,
    PREFIX_EXPR,
    INDEX_EXPR,
    FIELD_EXPR,
    METHOD_CALL_EXPR,
    PAREN_EXPR,
    LOCAL_VAR,
    LITERAL,
    ARRAY_CONST,
    TABLE_CONST,
    FUNC_CONST,
    ELSE_BRANCH,
    ELIF_BRANCH,
    PARAM_LIST,
    ARG_LIST,
    NAME,
    NAME_PATH,
    TABLE_FIELD,
    TABLE_FIELD_NAME_IDENT,
    TABLE_FIELD_NAME_EXPR,
}

/// Number of syntax kinds.
pub const SYNTAX_KIND_COUNT: u16 = 91;

impl SyntaxKind {
    /// The raw number of a kind: its position in the declaration of `SyntaxKind`.
    pub open spec fn index(self) -> u8 {
        match self {
            SyntaxKind::ERROR => 0,
            SyntaxKind::COMMENT => 1,
            SyntaxKind::WHITESPACE => 2,
            SyntaxKind::INT => 3,
            SyntaxKind::FLOAT => 4,
            SyntaxKind::STRING => 5,
            SyntaxKind::TRUE => 6,
            SyntaxKind::FALSE => 7,
            SyntaxKind::NIL => 8,
            SyntaxKind::VAR_KW => 9,
            SyntaxKind::FUNC_KW => 10,
            SyntaxKind::IF_KW => 11,
            SyntaxKind::THEN_KW => 12,
            SyntaxKind::ELIF_KW => 13,
            SyntaxKind::ELSE_KW => 14,
            SyntaxKind::FOR_KW => 15,
            SyntaxKind::WHILE_KW => 16,
            SyntaxKind::IN_KW => 17,
            SyntaxKind::DO_KW => 18,
            SyntaxKind::END_KW => 19,
            SyntaxKind::RETURN_KW => 20,
            SyntaxKind::BREAK_KW => 21,
            SyntaxKind::CONTINUE_KW => 22,
            SyntaxKind::AND_KW => 23,
            SyntaxKind::OR_KW => 24,
            SyntaxKind::NOT_KW => 25,
            SyntaxKind::PLUS => 26,
            SyntaxKind::MINUS => 27,
            SyntaxKind::STAR => 28,
            SyntaxKind::SLASH => 29,
            SyntaxKind::PERCENT => 30,
            SyntaxKind::AMP => 31,
            SyntaxKind::PIPE => 32,
            SyntaxKind::CARET => 33,
            SyntaxKind::TILDE => 34,
            SyntaxKind::BANG => 35,
            SyntaxKind::EQ => 36,
            SyntaxKind::LT => 37,
            SyntaxKind::GT => 38,
            SyntaxKind::DOT => 39,
            SyntaxKind::AT => 40,
            SyntaxKind::COMMA => 41,
            SyntaxKind::COLON => 42,
            SyntaxKind::OPENPAREN => 43,
            SyntaxKind::CLOSEPAREN => 44,
            SyntaxKind::OPENBRACE => 45,
            SyntaxKind::CLOSEBRACE => 46,
            SyntaxKind::OPENBRACKET => 47,
            SyntaxKind::CLOSEBRACKET => 48,
            SyntaxKind::ARROW => 49,
            SyntaxKind::BANGEQ => 50,
            SyntaxKind::EQ2 => 51,
            SyntaxKind::LT2 => 52,
            SyntaxKind::LTEQ => 53,
            SyntaxKind::GT2 => 54,
            SyntaxKind::GTEQ => 55,
            SyntaxKind::DOT2 => 56,
            SyntaxKind::IDENT => 57,
            SyntaxKind::PROGRAM => 58,
            SyntaxKind::VAR_STMT => 59,
            SyntaxKind::FUNC_STMT => 60,
            SyntaxKind::FOR_STMT => 61,
            SyntaxKind::WHILE_STMT => 62,
            SyntaxKind::RETURN_STMT => 63,
            SyntaxKind::BREAK_STMT => 64,
            SyntaxKind::CONTINUE_STMT => 65,
            SyntaxKind::EXPR_STMT => 66,
            SyntaxKind::ATTR_STMT => 67,
            SyntaxKind::IF_EXPR => 68,
            SyntaxKind::DO_EXPR => 69,
            SyntaxKind::CALL_EXPR => 70,
            SyntaxKind::BINARY_EXPR => 71,
            SyntaxKind::PREFIX_EXPR => 72,
            SyntaxKind::INDEX_EXPR => 73,
            SyntaxKind::FIELD_EXPR => 74,
            SyntaxKind::METHOD_CALL_EXPR => 75,
            SyntaxKind::PAREN_EXPR => 76,
            SyntaxKind::LOCAL_VAR => 77,
            SyntaxKind::LITERAL => 78,
            SyntaxKind::ARRAY_CONST => 79,
            SyntaxKind::TABLE_CONST => 80,
            SyntaxKind::FUNC_CONST => 81,
            SyntaxKind::ELSE_BRANCH => 82,
            SyntaxKind::ELIF_BRANCH => 83,
            SyntaxKind::PARAM_LIST => 84,
            SyntaxKind::ARG_LIST => 85,
            SyntaxKind::NAME => 86,
            SyntaxKind::NAME_PATH => 87,
            SyntaxKind::TABLE_FIELD => 88,
            SyntaxKind::TABLE_FIELD_NAME_IDENT => 89,
            SyntaxKind::TABLE_FIELD_NAME_EXPR => 90,
        }
    }

    /// The raw number of this kind.
    pub fn as_u8(self) -> (r: u8)
        ensures
            r == self.index(),
    {
        match self {
            SyntaxKind::ERROR => 0,
            SyntaxKind::COMMENT => 1,
            SyntaxKind::WHITESPACE => 2,
            SyntaxKind::INT => 3,
            SyntaxKind::FLOAT => 4,
            SyntaxKind::STRING => 5,
            SyntaxKind::TRUE => 6,
            SyntaxKind::FALSE => 7,
            SyntaxKind::NIL => 8,
            SyntaxKind::VAR_KW => 9,
            SyntaxKind::FUNC_KW => 10,
            SyntaxKind::IF_KW => 11,
            SyntaxKind::THEN_KW => 12,
            SyntaxKind::ELIF_KW => 13,
            SyntaxKind::ELSE_KW => 14,
            SyntaxKind::FOR_KW => 15,
            SyntaxKind::WHILE_KW => 16,
            SyntaxKind::IN_KW => 17,
            SyntaxKind::DO_KW => 18,
            SyntaxKind::END_KW => 19,
            SyntaxKind::RETURN_KW => 20,
            SyntaxKind::BREAK_KW => 21,
            SyntaxKind::CONTINUE_KW => 22,
            SyntaxKind::AND_KW => 23,
            SyntaxKind::OR_KW => 24,
            SyntaxKind::NOT_KW => 25,
            SyntaxKind::PLUS => 26,
            SyntaxKind::MINUS => 27,
            SyntaxKind::STAR => 28,
            SyntaxKind::SLASH => 29,
            SyntaxKind::PERCENT => 30,
            SyntaxKind::AMP => 31,
            SyntaxKind::PIPE => 32,
            SyntaxKind::CARET => 33,
            SyntaxKind::TILDE => 34,
            SyntaxKind::BANG => 35,
            SyntaxKind::EQ => 36,
            SyntaxKind::LT => 37,
            SyntaxKind::GT => 38,
            SyntaxKind::DOT => 39,
            SyntaxKind::AT => 40,
            SyntaxKind::COMMA => 41,
            SyntaxKind::COLON => 42,
            SyntaxKind::OPENPAREN => 43,
            SyntaxKind::CLOSEPAREN => 44,
            SyntaxKind::OPENBRACE => 45,
            SyntaxKind::CLOSEBRACE => 46,
            SyntaxKind::OPENBRACKET => 47,
            SyntaxKind::CLOSEBRACKET => 48,
            SyntaxKind::ARROW => 49,
            SyntaxKind::BANGEQ => 50,
            SyntaxKind::EQ2 => 51,
            SyntaxKind::LT2 => 52,
            SyntaxKind::LTEQ => 53,
            SyntaxKind::GT2 => 54,
            SyntaxKind::GTEQ => 55,
            SyntaxKind::DOT2 => 56,
            SyntaxKind::IDENT => 57,
            SyntaxKind::PROGRAM => 58,
            SyntaxKind::VAR_STMT => 59,
            SyntaxKind::FUNC_STMT => 60,
            SyntaxKind::FOR_STMT => 61,
            SyntaxKind::WHILE_STMT => 62,
            SyntaxKind::RETURN_STMT => 63,
            SyntaxKind::BREAK_STMT => 64,
            SyntaxKind::CONTINUE_STMT => 65,
            SyntaxKind::EXPR_STMT => 66,
            SyntaxKind::ATTR_STMT => 67,
            SyntaxKind::IF_EXPR => 68,
            SyntaxKind::DO_EXPR => 69,
            SyntaxKind::CALL_EXPR => 70,
            SyntaxKind::BINARY_EXPR => 71,
            SyntaxKind::PREFIX_EXPR => 72,
            SyntaxKind::INDEX_EXPR => 73,
            SyntaxKind::FIELD_EXPR => 74,
            SyntaxKind::METHOD_CALL_EXPR => 75,
            SyntaxKind::PAREN_EXPR => 76,
            SyntaxKind::LOCAL_VAR => 77,
            SyntaxKind::LITERAL => 78,
            SyntaxKind::ARRAY_CONST => 79,
            SyntaxKind::TABLE_CONST => 80,
            SyntaxKind::FUNC_CONST => 81,
            SyntaxKind::ELSE_BRANCH => 82,
            SyntaxKind::ELIF_BRANCH => 83,
            SyntaxKind::PARAM_LIST => 84,
            SyntaxKind::ARG_LIST => 85,
            SyntaxKind::NAME => 86,
            SyntaxKind::NAME_PATH => 87,
            SyntaxKind::TABLE_FIELD => 88,
            SyntaxKind::TABLE_FIELD_NAME_IDENT => 89,
            SyntaxKind::TABLE_FIELD_NAME_EXPR => 90,
        }
    }

    /// The kind whose raw number is `raw`.
    pub fn from_raw(raw: u16) -> (r: SyntaxKind)
        requires
            raw < SYNTAX_KIND_COUNT,
        ensures
            r.index() == raw,
    {
        match raw {
            0 => SyntaxKind::ERROR,
            1 => SyntaxKind::COMMENT,
            2 => SyntaxKind::WHITESPACE,
            3 => SyntaxKind::INT,
            4 => SyntaxKind::FLOAT,
            5 => SyntaxKind::STRING,
            6 => SyntaxKind::TRUE,
            7 => SyntaxKind::FALSE,
            8 => SyntaxKind::NIL,
            9 => SyntaxKind::VAR_KW,
            10 => SyntaxKind::FUNC_KW,
            11 => SyntaxKind::IF_KW,
            12 => SyntaxKind::THEN_KW,
            13 => SyntaxKind::ELIF_KW,
            14 => SyntaxKind::ELSE_KW,
            15 => SyntaxKind::FOR_KW,
            16 => SyntaxKind::WHILE_KW,
            17 => SyntaxKind::IN_KW,
            18 => SyntaxKind::DO_KW,
            19 => SyntaxKind::END_KW,
            20 => SyntaxKind::RETURN_KW,
            21 => SyntaxKind::BREAK_KW,
            22 => SyntaxKind::CONTINUE_KW,
            23 => SyntaxKind::AND_KW,
            24 => SyntaxKind::OR_KW,
            25 => SyntaxKind::NOT_KW,
            26 => SyntaxKind::PLUS,
            27 => SyntaxKind::MINUS,
            28 => SyntaxKind::STAR,
            29 => SyntaxKind::SLASH,
            30 => SyntaxKind::PERCENT,
            31 => SyntaxKind::AMP,
            32 => SyntaxKind::PIPE,
            33 => SyntaxKind::CARET,
            34 => SyntaxKind::TILDE,
            35 => SyntaxKind::BANG,
            36 => SyntaxKind::EQ,
            37 => SyntaxKind::LT,
            38 => SyntaxKind::GT,
            39 => SyntaxKind::DOT,
            40 => SyntaxKind::AT,
            41 => SyntaxKind::COMMA,
            42 => SyntaxKind::COLON,
            43 => SyntaxKind::OPENPAREN,
            44 => SyntaxKind::CLOSEPAREN,
            45 => SyntaxKind::OPENBRACE,
            46 => SyntaxKind::CLOSEBRACE,
            47 => SyntaxKind::OPENBRACKET,
            48 => SyntaxKind::CLOSEBRACKET,
            49 => SyntaxKind::ARROW,
            50 => SyntaxKind::BANGEQ,
            51 => SyntaxKind::EQ2,
            52 => SyntaxKind::LT2,
            53 => SyntaxKind::LTEQ,
            54 => SyntaxKind::GT2,
            55 => SyntaxKind::GTEQ,
            56 => SyntaxKind::DOT2,
            57 => SyntaxKind::IDENT,
            58 => SyntaxKind::PROGRAM,
            59 => SyntaxKind::VAR_STMT,
            60 => SyntaxKind::FUNC_STMT,
            61 => SyntaxKind::FOR_STMT,
            62 => SyntaxKind::WHILE_STMT,
            63 => SyntaxKind::RETURN_STMT,
            64 => SyntaxKind::BREAK_STMT,
            65 => SyntaxKind::CONTINUE_STMT,
            66 => SyntaxKind::EXPR_STMT,
            67 => SyntaxKind::ATTR_STMT,
            68 => SyntaxKind::IF_EXPR,
            69 => SyntaxKind::DO_EXPR,
            70 => SyntaxKind::CALL_EXPR,
            71 => SyntaxKind::BINARY_EXPR,
            72 => SyntaxKind::PREFIX_EXPR,
            73 => SyntaxKind::INDEX_EXPR,
            74 => SyntaxKind::FIELD_EXPR,
            75 => SyntaxKind::METHOD_CALL_EXPR,
            76 => SyntaxKind::PAREN_EXPR,
            77 => SyntaxKind::LOCAL_VAR,
            78 => SyntaxKind::LITERAL,
            79 => SyntaxKind::ARRAY_CONST,
            80 => SyntaxKind::TABLE_CONST,
            81 => SyntaxKind::FUNC_CONST,
            82 => SyntaxKind::ELSE_BRANCH,
            83 => SyntaxKind::ELIF_BRANCH,
            84 => SyntaxKind::PARAM_LIST,
            85 => SyntaxKind::ARG_LIST,
            86 => SyntaxKind::NAME,
            87 => SyntaxKind::NAME_PATH,
            88 => SyntaxKind::TABLE_FIELD,
            89 => SyntaxKind::TABLE_FIELD_NAME_IDENT,
            90 => SyntaxKind::TABLE_FIELD_NAME_EXPR,
            _ => SyntaxKind::TABLE_FIELD_NAME_EXPR,
        }
    }
}

impl SyntaxKind {
    /// The first literal kind.
    pub const START_LITERAL: SyntaxKind = SyntaxKind::INT;
    /// The last literal kind.
    pub const END_LITERAL: SyntaxKind = SyntaxKind::NIL;
    /// The first keyword kind.
    pub const START_KEYWORD: SyntaxKind = SyntaxKind::VAR_KW;
    /// The last keyword kind.
    pub const END_KEYWORD: SyntaxKind = SyntaxKind::NOT_KW;
    /// The first punctuation kind.
    pub const START_PUNCT: SyntaxKind = SyntaxKind::PLUS;
    /// The last punctuation kind.
    pub const END_PUNCT: SyntaxKind = SyntaxKind::DOT2;

    /// Whether the raw number of `self` lies in the closed range from `start` to `end`.
    fn is_between(self, start: SyntaxKind, end: SyntaxKind) -> (r: bool)
        ensures
            r == (start.index() <= self.index() <= end.index()),
    {
        let i = self.as_u8();
        start.as_u8() <= i && i <= end.as_u8()
    }

    /// Literal tokens: `int`, `float`, `string`, `true`, `false` and `nil`.
    pub open spec fn spec_is_literal(self) -> bool {
        3 <= self.index() <= 8
    }

    /// Reserved words from `var` to `not`.
    pub open spec fn spec_is_keyword(self) -> bool {
        9 <= self.index() <= 25
    }

    /// Punctuation tokens from `+` to `..`.
    pub open spec fn spec_is_punct(self) -> bool {
        26 <= self.index() <= 56
    }

    /// Whitespace and comments.
    pub open spec fn spec_is_trivia(self) -> bool {
        self == SyntaxKind::WHITESPACE || self == SyntaxKind::COMMENT
    }

    pub fn is_literal(self) -> (r: bool)
        ensures
            r == self.spec_is_literal(),
            r <==> (self == SyntaxKind::INT || self == SyntaxKind::FLOAT || self == SyntaxKind::STRING
                || self == SyntaxKind::TRUE || self == SyntaxKind::FALSE || self == SyntaxKind::NIL),
    {
        self.is_between(SyntaxKind::START_LITERAL, SyntaxKind::END_LITERAL)
    }

    pub fn is_keyword(self) -> (r: bool)
        ensures
            r == self.spec_is_keyword(),
    {
        self.is_between(SyntaxKind::START_KEYWORD, SyntaxKind::END_KEYWORD)
    }

    pub fn is_punct(self) -> (r: bool)
        ensures
            r == self.spec_is_punct(),
    {
        self.is_between(SyntaxKind::START_PUNCT, SyntaxKind::END_PUNCT)
    }

    pub fn is_trivia(self) -> (r: bool)
        ensures
            r == self.spec_is_trivia(),
    {
        match self {
            SyntaxKind::WHITESPACE | SyntaxKind::COMMENT => true,
            _ => false,
        }
    }
}

/// The language tag of Lico syntax trees: a marker type that carries no data.
#[derive(Debug, Clone, Copy, PartialEq, Eq, PartialOrd, Ord, Hash)]
pub struct LicoLanguage;

/// Raw numbers are below the number of kinds.
pub proof fn lemma_index_bound(k: SyntaxKind)
    ensures
        k.index() < SYNTAX_KIND_COUNT,
{
}

/// Distinct kinds have distinct raw numbers.
pub proof fn lemma_index_injective(a: SyntaxKind, b: SyntaxKind)
    ensures
        a.index() == b.index() <==> a == b,
{
}

} // verus!
