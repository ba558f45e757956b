//! The tokens of VDL.
use vstd::prelude::*;

verus! {

/// A lexical token in VDL source code. Every keyword of VDL v0.1 is a
/// variant of its own; no bare identifiers exist outside string literals.
#[derive(Debug, PartialEq, Eq, Hash)]
pub enum Token {
    // Entity type keywords
    Axiom,
    Framework,
    Law,
    Principle,
    Concept,
    Artifact,
    Pillar,
    Document,
    Project,
    Release,
    Persona,
    Collection,
    // Property keywords
    Version,
    Title,
    Description,
    Previous,
    // Relationship keywords
    Requires,
    Enables,
    References,
    BasedOn,
    DerivesFrom,
    Implements,
    InspiredBy,
    EvolvedFrom,
    Contradicts,
    // Evidence keywords
    Evidence,
    Revelation,
    Synthesis,
    Analogy,
    Source,
    Text,
    Translator,
    Sources,
    Argument,
    Domain,
    Mapping,
    /// A double-quoted string literal, with its escapes resolved.
    String(String),
    /// An annotation `@name("value")`: its name and its value.
    Annotation(String, String),
    // Delimiters
    LBrace,
    RBrace,
    LBracket,
    RBracket,
    Comma,
}

/// What a [`Token`] denotes: the same token with its texts as character
/// sequences.
pub enum TokenView {
    Axiom,
    Framework,
    Law,
    Principle,
    Concept,
    Artifact,
    Pillar,
    Document,
    Project,
    Release,
    Persona,
    Collection,
    Version,
    Title,
    Description,
    Previous,
    Requires,
    Enables,
    References,
    BasedOn,
    DerivesFrom,
    Implements,
    InspiredBy,
    EvolvedFrom,
    Contradicts,
    Evidence,
    Revelation,
    Synthesis,
    Analogy,
    Source,
    Text,
    Translator,
    Sources,
    Argument,
    Domain,
    Mapping,
    Str(Seq<char>),
    Annotation(Seq<char>, Seq<char>),
    LBrace,
    RBrace,
    LBracket,
    RBracket,
    Comma,
}

impl View for Token {
    type V = TokenView;

    open spec fn view(&self) -> TokenView {
        match self {
            Token::Axiom => TokenView::Axiom,
            Token::Framework => TokenView::Framework,
            Token::Law => TokenView::Law,
            Token::Principle => TokenView::Principle,
            Token::Concept => TokenView::Concept,
            Token::Artifact => TokenView::Artifact,
            Token::Pillar => TokenView::Pillar,
            Token::Document => TokenView::Document,
            Token::Project => TokenView::Project,
            Token::Release => TokenView::Release,
            Token::Persona => TokenView::Persona,
            Token::Collection => TokenView::Collection,
            Token::Version => TokenView::Version,
            Token::Title => TokenView::Title,
            Token::Description => TokenView::Description,
            Token::Previous => TokenView::Previous,
            Token::Requires => TokenView::Requires,
            Token::Enables => TokenView::Enables,
            Token::References => TokenView::References,
            Token::BasedOn => TokenView::BasedOn,
            Token::DerivesFrom => TokenView::DerivesFrom,
            Token::Implements => TokenView::Implements,
            Token::InspiredBy => TokenView::InspiredBy,
            Token::EvolvedFrom => TokenView::EvolvedFrom,
            Token::Contradicts => TokenView::Contradicts,
            Token::Evidence => TokenView::Evidence,
            Token::Revelation => TokenView::Revelation,
            Token::Synthesis => TokenView::Synthesis,
            Token::Analogy => TokenView::Analogy,
            Token::Source => TokenView::Source,
            Token::Text => TokenView::Text,
            Token::Translator => TokenView::Translator,
            Token::Sources => TokenView::Sources,
            Token::Argument => TokenView::Argument,
            Token::Domain => TokenView::Domain,
            Token::Mapping => TokenView::Mapping,
            Token::LBrace => TokenView::LBrace,
            Token::RBrace => TokenView::RBrace,
            Token::LBracket => TokenView::LBracket,
            Token::RBracket => TokenView::RBracket,
            Token::Comma => TokenView::Comma,
            Token::String(s) => TokenView::Str(s@),
            Token::Annotation(n, v) => TokenView::Annotation(n@, v@),
        }
    }
}

impl Clone for Token {
    fn clone(&self) -> (r: Self)
        ensures
            r == *self,
    {
        match self {
            Token::Axiom => Token::Axiom,
            Token::Framework => Token::Framework,
            Token::Law => Token::Law,
            Token::Principle => Token::Principle,
            Token::Concept => Token::Concept,
            Token::Artifact => Token::Artifact,
            Token::Pillar => Token::Pillar,
            Token::Document => Token::Document,
            Token::Project => Token::Project,
            Token::Release => Token::Release,
            Token::Persona => Token::Persona,
            Token::Collection => Token::Collection,
            Token::Version => Token::Version,
            Token::Title => Token::Title,
            Token::Description => Token::Description,
            Token::Previous => Token::Previous,
            Token::Requires => Token::Requires,
            Token::Enables => Token::Enables,
            Token::References => Token::References,
            Token::BasedOn => Token::BasedOn,
            Token::DerivesFrom => Token::DerivesFrom,
            Token::Implements => Token::Implements,
            Token::InspiredBy => Token::InspiredBy,
            Token::EvolvedFrom => Token::EvolvedFrom,
            Token::Contradicts => Token::Contradicts,
            Token::Evidence => Token::Evidence,
            Token::Revelation => Token::Revelation,
            Token::Synthesis => Token::Synthesis,
            Token::Analogy => Token::Analogy,
            Token::Source => Token::Source,
            Token::Text => Token::Text,
            Token::Translator => Token::Translator,
            Token::Sources => Token::Sources,
            Token::Argument => Token::Argument,
            Token::Domain => Token::Domain,
            Token::Mapping => Token::Mapping,
            Token::LBrace => Token::LBrace,
            Token::RBrace => Token::RBrace,
            Token::LBracket => Token::LBracket,
            Token::RBracket => Token::RBracket,
            Token::Comma => Token::Comma,
            Token::String(s) => Token::String(s.clone()),
            Token::Annotation(n, v) => Token::Annotation(n.clone(), v.clone()),
        }
    }
}

/// The keyword token that a word denotes, if the word is a keyword.
pub open spec fn keyword_token(w: Seq<char>) -> Option<TokenView> {
    if w == "axiom"@ {
        Some(TokenView::Axiom)
    } else if w == "framework"@ {
        Some(TokenView::Framework)
    } else if w == "law"@ {
        Some(TokenView::Law)
    } else if w == "principle"@ {
        Some(TokenView::Principle)
    } else if w == "concept"@ {
        Some(TokenView::Concept)
    } else if w == "artifact"@ {
        Some(TokenView::Artifact)
    } else if w == "pillar"@ {
        Some(TokenView::Pillar)
    } else if w == "document"@ {
        Some(TokenView::Document)
    } else if w == "project"@ {
        Some(TokenView::Project)
    } else if w == "release"@ {
        Some(TokenView::Release)
    } else if w == "persona"@ {
        Some(TokenView::Persona)
    } else if w == "collection"@ {
        Some(TokenView::Collection)
    } else if w == "version"@ {
        Some(TokenView::Version)
    } else if w == "title"@ {
        Some(TokenView::Title)
    } else if w == "description"@ {
        Some(TokenView::Description)
    } else if w == "previous"@ {
        Some(TokenView::Previous)
    } else if w == "requires"@ {
        Some(TokenView::Requires)
    } else if w == "enables"@ {
        Some(TokenView::Enables)
    } else if w == "references"@ {
        Some(TokenView::References)
    } else if w == "based_on"@ {
        Some(TokenView::BasedOn)
    } else if w == "derives_from"@ {
        Some(TokenView::DerivesFrom)
    } else if w == "implements"@ {
        Some(TokenView::Implements)
    } else if w == "inspired_by"@ {
        Some(TokenView::InspiredBy)
    } else if w == "evolved_from"@ {
        Some(TokenView::EvolvedFrom)
    } else if w == "contradicts"@ {
        Some(TokenView::Contradicts)
    } else if w == "evidence"@ {
        Some(TokenView::Evidence)
    } else if w == "revelation"@ {
        Some(TokenView::Revelation)
    } else if w == "synthesis"@ {
        Some(TokenView::Synthesis)
    } else if w == "analogy"@ {
        Some(TokenView::Analogy)
    } else if w == "source"@ {
        Some(TokenView::Source)
    } else if w == "text"@ {
        Some(TokenView::Text)
    } else if w == "translator"@ {
        Some(TokenView::Translator)
    } else if w == "sources"@ {
        Some(TokenView::Sources)
    } else if w == "argument"@ {
        Some(TokenView::Argument)
    } else if w == "domain"@ {
        Some(TokenView::Domain)
    } else if w == "mapping"@ {
        Some(TokenView::Mapping)
    } else {
        None
    }
}

/// Looks a word up in the keyword table.
pub fn keyword(w: &String) -> (r: Option<Token>)
    ensures
        match r {
            Some(t) => keyword_token(w@) == Some(t@),
            None => keyword_token(w@) is None,
        },
{
    if *w == String::from_str("axiom") {
        Some(Token::Axiom)
    } else if *w == String::from_str("framework") {
        Some(Token::Framework)
    } else if *w == String::from_str("law") {
        Some(Token::Law)
    } else if *w == String::from_str("principle") {
        Some(Token::Principle)
    } else if *w == String::from_str("concept") {
        Some(Token::Concept)
    } else if *w == String::from_str("artifact") {
        Some(Token::Artifact)
    } else if *w == String::from_str("pillar") {
        Some(Token::Pillar)
    } else if *w == String::from_str("document") {
        Some(Token::Document)
    } else if *w == String::from_str("project") {
        Some(Token::Project)
    } else if *w == String::from_str("release") {
        Some(Token::Release)
    } else if *w == String::from_str("persona") {
        Some(Token::Persona)
    } else if *w == String::from_str("collection") {
        Some(Token::Collection)
    } else if *w == String::from_str("version") {
        Some(Token::Version)
    } else if *w == String::from_str("title") {
        Some(Token::Title)
    } else if *w == String::from_str("description") {
        Some(Token::Description)
    } else if *w == String::from_str("previous") {
        Some(Token::Previous)
    } else if *w == String::from_str("requires") {
        Some(Token::Requires)
    } else if *w == String::from_str("enables") {
        Some(Token::Enables)
    } else if *w == String::from_str("references") {
        Some(Token::References)
    } else if *w == String::from_str("based_on") {
        Some(Token::BasedOn)
    } else if *w == String::from_str("derives_from") {
        Some(Token::DerivesFrom)
    } else if *w == String::from_str("implements") {
        Some(Token::Implements)
    } else if *w == String::from_str("inspired_by") {
        Some(Token::InspiredBy)
    } else if *w == String::from_str("evolved_from") {
        Some(Token::EvolvedFrom)
    } else if *w == String::from_str("contradicts") {
        Some(Token::Contradicts)
    } else if *w == String::from_str("evidence") {
        Some(Token::Evidence)
    } else if *w == String::from_str("revelation") {
        Some(Token::Revelation)
    } else if *w == String::from_str("synthesis") {
        Some(Token::Synthesis)
    } else if *w == String::from_str("analogy") {
        Some(Token::Analogy)
    } else if *w == String::from_str("source") {
        Some(Token::Source)
    } else if *w == String::from_str("text") {
        Some(Token::Text)
    } else if *w == String::from_str("translator") {
        Some(Token::Translator)
    } else if *w == String::from_str("sources") {
        Some(Token::Sources)
    } else if *w == String::from_str("argument") {
        Some(Token::Argument)
    } else if *w == String::from_str("domain") {
        Some(Token::Domain)
    } else if *w == String::from_str("mapping") {
        Some(Token::Mapping)
    } else {
        None
    }
}

/// The hexadecimal digit for `d < 16`, in lower case.
pub open spec fn hex_digit(d: int) -> char {
    if d < 10 {
        (48 + d) as char
    } else {
        (87 + d) as char
    }
}

/// The lower-case hexadecimal text of `v < 256`, without leading zeros.
pub open spec fn hex_text(v: int) -> Seq<char> {
    if v < 16 {
        seq![hex_digit(v)]
    } else {
        seq![hex_digit(v / 16), hex_digit(v % 16)]
    }
}

/// How Rust's `Debug` writes a character outside ASCII inside a string
/// literal: as it is, or as a `\u{..}` escape where std's Unicode tables
/// call it unprintable or a grapheme extender.
pub uninterp spec fn escaped_non_ascii(c: char) -> Seq<char>;

/// `char::escape_debug`, called for characters outside ASCII only, where it
/// is what a string's `Debug` writes for the character. The contract claims
/// only that its text depends on the character alone; which characters
/// std escapes, by its Unicode tables, is left unsaid.
#[verifier::external_body]
fn escape_non_ascii(c: char) -> (r: String)
    requires
        (c as u32) >= 128,
    ensures
        r@ == escaped_non_ascii(c),
{
    c.escape_debug().to_string()
}

/// How a character is written inside a double-quoted literal, as Rust's
/// `Debug` writes it: backslash escapes for `\\`, `"`, line feed, tab,
/// carriage return and NUL, `\u{..}` for the other ASCII control
/// characters, other ASCII characters as they are, and characters outside
/// ASCII as [`escaped_non_ascii`] says.
pub open spec fn debug_escape_char(c: char) -> Seq<char> {
    if c == '\\' {
        seq!['\\', '\\']
    } else if c == '"' {
        seq!['\\', '"']
    } else if c == '\n' {
        seq!['\\', 'n']
    } else if c == '\t' {
        seq!['\\', 't']
    } else if c == '\r' {
        seq!['\\', 'r']
    } else if c == '\0' {
        seq!['\\', '0']
    } else if (c as u32) < 32 || (c as u32) == 127 {
        seq!['\\', 'u', '{'] + hex_text(c as u32 as int) + seq!['}']
    } else if (c as u32) >= 128 {
        escaped_non_ascii(c)
    } else {
        seq![c]
    }
}

pub open spec fn debug_escape_fn() -> spec_fn(char) -> Seq<char> {
    |c: char| debug_escape_char(c)
}

/// A text as a double-quoted literal.
pub open spec fn debug_quote(s: Seq<char>) -> Seq<char> {
    seq!['"'] + s.flat_map(debug_escape_fn()) + seq!['"']
}

fn hex_char(d: u32) -> (c: char)
    requires
        d < 16,
    ensures
        c == hex_digit(d as int),
{
    if d < 10 {
        ((48 + d) as u8) as char
    } else {
        ((87 + d) as u8) as char
    }
}

/// Writes a text as a double-quoted literal, with the escapes of
/// [`debug_escape_char`].
pub fn debug_quoted(s: &str) -> (r: String)
    ensures
        r@ == debug_quote(s@),
{
    let mut r = String::new();
    r.push('"');
    let ghost f = debug_escape_fn();
    assert(s@.take(0).flat_map(f) =~= Seq::<char>::empty());
    assert(r@ =~= seq!['"'] + s@.take(0).flat_map(f));
    for c in iter: s.chars()
        invariant
            f == debug_escape_fn(),
            iter.seq() == s@,
            r@ == seq!['"'] + iter.seq().take(iter.index() as int).flat_map(f),
    {
        let ghost k = iter.index() as int;
        proof {
            iter.seq().lemma_flat_map_take_append(f, k);
        }
        let ghost before = r@;
        let v = c as u32;
        if c == '\\' {
            r.push('\\');
            r.push('\\');
        } else if c == '"' {
            r.push('\\');
            r.push('"');
        } else if c == '\n' {
            r.push('\\');
            r.push('n');
        } else if c == '\t' {
            r.push('\\');
            r.push('t');
        } else if c == '\r' {
            r.push('\\');
            r.push('r');
        } else if c == '\0' {
            r.push('\\');
            r.push('0');
        } else if v < 32 || v == 127 {
            r.push('\\');
            r.push('u');
            r.push('{');
            if v < 16 {
                r.push(hex_char(v));
            } else {
                r.push(hex_char(v / 16));
                r.push(hex_char(v % 16));
            }
            r.push('}');
        } else if v >= 128 {
            let e = escape_non_ascii(c);
            r.append(e.as_str());
        } else {
            r.push(c);
        }
        assert(r@ =~= before + debug_escape_char(c));
    }
    proof {
        assert(s@.take(s@.len() as int) =~= s@);
    }
    r.push('"');
    r
}

/// The text of a keyword or delimiter token as written in source; a
/// string as a double-quoted literal ([`debug_quoted`]), and an annotation
/// as `@name("value")` with the value quoted the same way.
pub fn token_text(t: &Token) -> (s: String)
    ensures
        s@ == token_text_spec(t@),
{
    match t {
        Token::Axiom => String::from_str("axiom"),
        Token::Framework => String::from_str("framework"),
        Token::Law => String::from_str("law"),
        Token::Principle => String::from_str("principle"),
        Token::Concept => String::from_str("concept"),
        Token::Artifact => String::from_str("artifact"),
        Token::Pillar => String::from_str("pillar"),
        Token::Document => String::from_str("document"),
        Token::Project => String::from_str("project"),
        Token::Release => String::from_str("release"),
        Token::Persona => String::from_str("persona"),
        Token::Collection => String::from_str("collection"),
        Token::Version => String::from_str("version"),
        Token::Title => String::from_str("title"),
        Token::Description => String::from_str("description"),
        Token::Previous => String::from_str("previous"),
        Token::Requires => String::from_str("requires"),
        Token::Enables => String::from_str("enables"),
        Token::References => String::from_str("references"),
        Token::BasedOn => String::from_str("based_on"),
        Token::DerivesFrom => String::from_str("derives_from"),
        Token::Implements => String::from_str("implements"),
        Token::InspiredBy => String::from_str("inspired_by"),
        Token::EvolvedFrom => String::from_str("evolved_from"),
        Token::Contradicts => String::from_str("contradicts"),
        Token::Evidence => String::from_str("evidence"),
        Token::Revelation => String::from_str("revelation"),
        Token::Synthesis => String::from_str("synthesis"),
        Token::Analogy => String::from_str("analogy"),
        Token::Source => String::from_str("source"),
        Token::Text => String::from_str("text"),
        Token::Translator => String::from_str("translator"),
        Token::Sources => String::from_str("sources"),
        Token::Argument => String::from_str("argument"),
        Token::Domain => String::from_str("domain"),
        Token::Mapping => String::from_str("mapping"),
        Token::String(s) => debug_quoted(s.as_str()),
        Token::Annotation(n, v) => {
            let mut r = String::from_str("@");
            r.append(n.as_str());
            r.append("(");
            let q = debug_quoted(v.as_str());
            r.append(q.as_str());
            r.append(")");
            r
        },
        Token::LBrace => String::from_str("{"),
        Token::RBrace => String::from_str("}"),
        Token::LBracket => String::from_str("["),
        Token::RBracket => String::from_str("]"),
        Token::Comma => String::from_str(","),
    }
}

/// What [`token_text`] gives for each token.
pub open spec fn token_text_spec(t: TokenView) -> Seq<char> {
    match t {
        TokenView::Axiom => "axiom"@,
        TokenView::Framework => "framework"@,
        TokenView::Law => "law"@,
        TokenView::Principle => "principle"@,
        TokenView::Concept => "concept"@,
        TokenView::Artifact => "artifact"@,
        TokenView::Pillar => "pillar"@,
        TokenView::Document => "document"@,
        TokenView::Project => "project"@,
        TokenView::Release => "release"@,
        TokenView::Persona => "persona"@,
        TokenView::Collection => "collection"@,
        TokenView::Version => "version"@,
        TokenView::Title => "title"@,
        TokenView::Description => "description"@,
        TokenView::Previous => "previous"@,
        TokenView::Requires => "requires"@,
        TokenView::Enables => "enables"@,
        TokenView::References => "references"@,
        TokenView::BasedOn => "based_on"@,
        TokenView::DerivesFrom => "derives_from"@,
        TokenView::Implements => "implements"@,
        TokenView::InspiredBy => "inspired_by"@,
        TokenView::EvolvedFrom => "evolved_from"@,
        TokenView::Contradicts => "contradicts"@,
        TokenView::Evidence => "evidence"@,
        TokenView::Revelation => "revelation"@,
        TokenView::Synthesis => "synthesis"@,
        TokenView::Analogy => "analogy"@,
        TokenView::Source => "source"@,
        TokenView::Text => "text"@,
        TokenView::Translator => "translator"@,
        TokenView::Sources => "sources"@,
        TokenView::Argument => "argument"@,
        TokenView::Domain => "domain"@,
        TokenView::Mapping => "mapping"@,
        TokenView::Str(s) => debug_quote(s),
        TokenView::Annotation(n, v) => "@"@ + n + "("@ + debug_quote(v) + ")"@,
        TokenView::LBrace => "{"@,
        TokenView::RBrace => "}"@,
        TokenView::LBracket => "["@,
        TokenView::RBracket => "]"@,
        TokenView::Comma => ","@,
    }
}

} // verus!
