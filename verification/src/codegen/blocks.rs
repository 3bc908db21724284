//! The blocks of an interface file and the code written for each.
//!
//! ```text
//! ENUM <name>          STRUCT <name>        FUNCTION <name>
//! <variant> [...]      INT <field>          IN INT <param>
//! ...                  STRING <field>       IN STRING <param>
//! ENDENUM              ENDSTRUCT            OUT <type>        (optional, last)
//!                                           ENDFUNCTION
//! ```
use vstd::prelude::*;
use crate::text::{
    alphabetic_char, char_index_at, char_index_at_byte, chars_of, contains_str, includes,
    is_alphabetic, is_alphanumeric, is_text, is_whitespace, whitespace_char, lemma_split_first_prefix, numeric_char, occurs_at, occurs_in,
    push_chars, push_str, split, split_on, starts_with_str, string_from, string_of,
    shorter_than_two_bytes, sub_chars, texts, trim, trimmed, utf8_len,
};

verus! {

// ---------------------------------------------------------------------------
// types and errors
// ---------------------------------------------------------------------------

/// The data types an interface file can name (`EMPTY` is the return type of a
/// function without `OUT`).
#[derive(Clone, Copy, Debug, PartialEq, Eq, Structural)]
pub enum Type {
    INT,
    STRING,
    EMPTY,
}

/// The type a type token names: `INT` or `STRING`.
pub open spec fn type_named(tok: Seq<char>) -> Option<Type> {
    if tok == "INT"@ {
        Some(Type::INT)
    } else if tok == "STRING"@ {
        Some(Type::STRING)
    } else {
        None
    }
}

/// The Rust type written for a type.
pub open spec fn rust_type_text(t: Type) -> Seq<char> {
    match t {
        Type::INT => "i64"@,
        Type::STRING => "String"@,
        Type::EMPTY => "()"@,
    }
}

impl Type {
    /// Reads a type token.
    pub fn from_str(s: &[char]) -> (r: Result<Type, ()>)
        ensures
            match type_named(s@) {
                Some(t) => r == Ok::<Type, ()>(t),
                None => r is Err,
            },
    {
        if is_text(s, "INT") {
            Ok(Type::INT)
        } else if is_text(s, "STRING") {
            Ok(Type::STRING)
        } else {
            Err(())
        }
    }

    /// The Rust type written for this type.
    pub fn to_rust_type(&self) -> (r: String)
        ensures
            r@ == rust_type_text(*self),
    {
        match self {
            Type::INT => string_of("i64"),
            Type::STRING => string_of("String"),
            Type::EMPTY => string_of("()"),
        }
    }
}

/// Why an interface file is refused.
#[derive(Debug)]
pub enum IdlError {
    /// A block was refused, with the reason.
    Invalid(String),
    /// A line outside the blocks that starts no block.
    Unsupported(String),
    /// A block reader ran past the end of the file, sliced a line inside a
    /// character, or read a token that a line does not have.
    Malformed,
}

/// The view of an `IdlError`.
pub enum Fail {
    Invalid(Seq<char>),
    Unsupported(Seq<char>),
    Malformed,
}

impl View for IdlError {
    type V = Fail;

    open spec fn view(&self) -> Fail {
        match self {
            IdlError::Invalid(s) => Fail::Invalid(s@),
            IdlError::Unsupported(s) => Fail::Unsupported(s@),
            IdlError::Malformed => Fail::Malformed,
        }
    }
}

/// `Invalid(a + b + c)`.
fn invalid(a: &str, b: &[char], c: &str) -> (r: IdlError)
    ensures
        r@ == Fail::Invalid(a@ + b@ + c@),
{
    let mut out: Vec<char> = Vec::new();
    push_str(&mut out, a);
    push_chars(&mut out, b);
    push_str(&mut out, c);
    IdlError::Invalid(string_from(out.as_slice()))
}

/// `Invalid(a + b)`.
fn invalid_after(a: &str, b: &[char]) -> (r: IdlError)
    ensures
        r@ == Fail::Invalid(a@ + b@),
{
    let mut out: Vec<char> = Vec::new();
    push_str(&mut out, a);
    push_chars(&mut out, b);
    IdlError::Invalid(string_from(out.as_slice()))
}

/// `Invalid(a)`.
fn invalid_text(a: &str) -> (r: IdlError)
    ensures
        r@ == Fail::Invalid(a@),
{
    IdlError::Invalid(string_of(a))
}

// ---------------------------------------------------------------------------
// block names
// ---------------------------------------------------------------------------

/// The name of the block that starts on line `i`: the line after its first
/// `kw` bytes (the keyword), trimmed, where it is at least two bytes long and
/// not yet defined; `kind` is the word the messages use.
pub open spec fn named_block(
    lines: Seq<Seq<char>>,
    i: int,
    kw: int,
    kind: Seq<char>,
    defined: Seq<Seq<char>>,
) -> Result<Seq<char>, Fail> {
    match char_index_at_byte(lines[i], kw) {
        None => Err(Fail::Malformed),
        Some(k) => {
            let name = trimmed(lines[i].skip(k));
            if utf8_len(name) < 2 {
                Err(Fail::Invalid("ERROR "@ + kind + " name is not present"@))
            } else if defined.contains(name) {
                Err(
                    Fail::Invalid(
                        "ERROR: "@ + kind + " "@ + name + " is already defined in previous "@ + kind
                            + "s"@,
                    ),
                )
            } else {
                Ok(name)
            }
        },
    }
}

/// A copy of a run of characters.
fn copy_chars(s: &[char]) -> (r: Vec<char>)
    ensures
        r@ == s@,
{
    sub_chars(s, 0, s.len())
}

/// Reads the name of the block on line `i` and records it in `defined`.
fn take_name(
    lines: &Vec<Vec<char>>,
    i: usize,
    kw: usize,
    kind: &str,
    defined: &mut Vec<Vec<char>>,
) -> (r: Result<Vec<char>, IdlError>)
    requires
        i < lines@.len(),
    ensures
        match r {
            Ok(n) => named_block(texts(lines@), i as int, kw as int, kind@, texts(old(defined)@))
                == Ok::<Seq<char>, Fail>(n@) && texts(final(defined)@) == texts(old(defined)@).push(
                n@,
            ),
            Err(e) => named_block(texts(lines@), i as int, kw as int, kind@, texts(old(defined)@))
                == Err::<Seq<char>, Fail>(e@) && final(defined)@ == old(defined)@,
        },
{
    let line = lines[i].as_slice();
    assert(line@ == texts(lines@)[i as int]);
    let cut = match char_index_at(line, kw) {
        None => return Err(IdlError::Malformed),
        Some(k) => k,
    };
    let rest = sub_chars(line, cut, line.len());
    assert(rest@ =~= line@.skip(cut as int));
    let name = trim(rest.as_slice());
    if shorter_than_two_bytes(name.as_slice()) {
        let k = chars_of(kind);
        return Err(invalid("ERROR ", k.as_slice(), " name is not present"));
    }
    if includes(defined, name.as_slice()) {
        let mut msg: Vec<char> = Vec::new();
        push_str(&mut msg, "ERROR: ");
        push_str(&mut msg, kind);
        push_str(&mut msg, " ");
        push_chars(&mut msg, name.as_slice());
        push_str(&mut msg, " is already defined in previous ");
        push_str(&mut msg, kind);
        push_str(&mut msg, "s");
        return Err(IdlError::Invalid(string_from(msg.as_slice())));
    }
    let kept = copy_chars(name.as_slice());
    defined.push(kept);
    assert(texts(defined@) =~= texts(old(defined)@).push(name@));
    Ok(name)
}

// ---------------------------------------------------------------------------
// ENUM blocks
// ---------------------------------------------------------------------------

/// Every character of `c` is alphanumeric or whitespace: a variant line is
/// its name, optionally followed by more words (a type and a value).
pub open spec fn words_only(c: Seq<char>) -> bool {
    forall|k: int|
        0 <= k < c.len() ==> (alphabetic_char(#[trigger] c[k]) || numeric_char(c[k])
            || whitespace_char(c[k]))
}

/// The index of the first whitespace character of `c` at or after `k`, or
/// its length where there is none.
pub open spec fn word_end(c: Seq<char>, k: int) -> int
    decreases c.len() - k,
{
    if k >= c.len() || whitespace_char(c[k]) {
        k
    } else {
        word_end(c, k + 1)
    }
}

/// The first word of `c`: the name of the variant that a line declares.
pub open spec fn leading_word(c: Seq<char>) -> Seq<char> {
    c.take(word_end(c, 0))
}

/// Reads the variant lines of an enum from line `j` on, after `variants`:
/// each line, trimmed, must hold only alphanumeric words and start with a
/// letter, and its first word is the variant; the first line that starts
/// with `ENDENUM` ends the block. The variants and the index of the
/// `ENDENUM` line.
pub open spec fn enum_scan(lines: Seq<Seq<char>>, j: int, variants: Seq<Seq<char>>) -> Result<
    (Seq<Seq<char>>, int),
    Fail,
>
    decreases lines.len() - j,
{
    if j >= lines.len() {
        if variants.len() == 0 {
            Err(Fail::Invalid("ERROR: could not find one variant in enum"@))
        } else {
            Err(Fail::Invalid("ERROR: Could not find ENDENUM"@))
        }
    } else {
        let c = trimmed(lines[j]);
        if !words_only(c) {
            Err(
                Fail::Invalid(
                    "ERROR: line "@ + c + " contains something other than alphanumeric chars"@,
                ),
            )
        } else if c.len() == 0 {
            Err(Fail::Malformed)
        } else if !alphabetic_char(c[0]) {
            Err(Fail::Invalid("ERROR: enum variant first char is not alphabetic: "@ + c))
        } else if "ENDENUM"@.is_prefix_of(c) {
            if variants.len() == 0 {
                Err(Fail::Invalid("ERROR: could not find one variant in enum"@))
            } else {
                Ok((variants, j))
            }
        } else {
            enum_scan(lines, j + 1, variants.push(leading_word(c)))
        }
    }
}

/// The lines written for the variants.
pub open spec fn variant_lines(vs: Seq<Seq<char>>) -> Seq<char>
    decreases vs.len(),
{
    if vs.len() == 0 {
        Seq::empty()
    } else {
        variant_lines(vs.drop_last()) + "  "@ + vs.last() + ",\n"@
    }
}

/// The first lines written for an enum.
pub open spec fn enum_head(name: Seq<char>) -> Seq<char> {
    "\n"@ + "#[derive(Debug)]\n"@ + "enum "@ + name + " {\n"@
}

/// The enum written for an `ENUM` block.
pub open spec fn enum_text(name: Seq<char>, vs: Seq<Seq<char>>) -> Seq<char> {
    enum_head(name) + variant_lines(vs) + "}\n"@
}

/// The `ENUM` block that starts on line `i`: its name, the code written for
/// it, and the index of its `ENDENUM` line.
pub open spec fn enum_block(lines: Seq<Seq<char>>, i: int, defined: Seq<Seq<char>>) -> Result<
    (Seq<char>, Seq<char>, int),
    Fail,
> {
    match named_block(lines, i, 4, "enum"@, defined) {
        Err(e) => Err(e),
        Ok(name) => match enum_scan(lines, i + 1, Seq::empty()) {
            Err(e) => Err(e),
            Ok((vs, j)) => Ok((name, enum_text(name, vs), j)),
        },
    }
}

/// The scan ends at or after where it starts.
pub proof fn lemma_enum_scan_end(lines: Seq<Seq<char>>, j: int, variants: Seq<Seq<char>>)
    ensures
        enum_scan(lines, j, variants) matches Ok((_, k)) ==> j <= k < lines.len(),
    decreases lines.len() - j,
{
    if j < lines.len() {
        lemma_enum_scan_end(lines, j + 1, variants.push(leading_word(trimmed(lines[j]))));
    }
}

/// Whether every character of `c` is alphanumeric or whitespace.
fn words_only_in(c: &[char]) -> (r: bool)
    ensures
        r == words_only(c@),
{
    let n = c.len();
    for k in 0..n
        invariant
            n == c@.len(),
            forall|q: int|
                0 <= q < k ==> (alphabetic_char(#[trigger] c@[q]) || numeric_char(c@[q])
                    || whitespace_char(c@[q])),
    {
        if !is_alphanumeric(c[k]) && !is_whitespace(c[k]) {
            return false;
        }
    }
    true
}

/// The length of the first word of `c`.
fn leading_word_len(c: &[char]) -> (r: usize)
    ensures
        r as int == word_end(c@, 0),
        r <= c@.len(),
{
    let n = c.len();
    let mut k: usize = 0;
    while k < n && !is_whitespace(c[k])
        invariant
            k <= n,
            n == c@.len(),
            word_end(c@, 0) == word_end(c@, k as int),
        decreases n - k,
    {
        k = k + 1;
    }
    k
}

/// The result of reading a block: the code written for it and the index of
/// its last line.
pub open spec fn written(r: Result<(Vec<char>, usize), IdlError>) -> Result<(Seq<char>, int), Fail> {
    match r {
        Ok((t, j)) => Ok((t@, j as int)),
        Err(e) => Err(e@),
    }
}

/// The part of a block's result that the caller sees: its code and its end.
pub open spec fn text_and_end(r: Result<(Seq<char>, Seq<char>, int), Fail>) -> Result<
    (Seq<char>, int),
    Fail,
> {
    match r {
        Ok((_, t, j)) => Ok((t, j)),
        Err(e) => Err(e),
    }
}

/// The name a block adds to its list of defined names.
pub open spec fn added_name(r: Result<Seq<char>, Fail>, defined: Seq<Seq<char>>) -> Seq<Seq<char>> {
    match r {
        Ok(n) => defined.push(n),
        Err(_) => defined,
    }
}

/// Reads the `ENUM` block that starts on line `i` and writes a Rust enum for
/// it; the enum's name is added to `enums_defined` once it has been read.
pub fn consume_enum(lines: &Vec<Vec<char>>, i: usize, enums_defined: &mut Vec<Vec<char>>) -> (r:
    Result<(Vec<char>, usize), IdlError>)
    requires
        i < lines@.len(),
    ensures
        written(r) == text_and_end(enum_block(texts(lines@), i as int, texts(old(enums_defined)@))),
        texts(final(enums_defined)@) == added_name(
            named_block(texts(lines@), i as int, 4, "enum"@, texts(old(enums_defined)@)),
            texts(old(enums_defined)@),
        ),
{
    let ghost ls = texts(lines@);
    let ghost before = texts(enums_defined@);
    let name = match take_name(lines, i, 4, "enum", enums_defined) {
        Ok(n) => n,
        Err(e) => return Err(e),
    };
    let mut out: Vec<char> = Vec::new();
    push_str(&mut out, "\n");
    push_str(&mut out, "#[derive(Debug)]\n");
    push_str(&mut out, "enum ");
    push_chars(&mut out, name.as_slice());
    push_str(&mut out, " {\n");
    let n = lines.len();
    let mut j = i + 1;
    let ghost mut vars: Seq<Seq<char>> = Seq::empty();
    let mut contains_variant = false;
    assert(out@ =~= enum_head(name@) + variant_lines(vars));
    while j < n
        invariant
            ls == texts(lines@),
            named_block(ls, i as int, 4, "enum"@, before) == Ok::<Seq<char>, Fail>(name@),
            texts(enums_defined@) == before.push(name@),
            before == texts(old(enums_defined)@),
            contains_variant == (vars.len() > 0),
            n == lines@.len(),
            i < j <= n,
            enum_scan(ls, i + 1, Seq::empty()) == enum_scan(ls, j as int, vars),
            out@ == enum_head(name@) + variant_lines(vars),
        decreases n - j,
    {
        let c = trim(lines[j].as_slice());
        assert(lines@[j as int]@ == ls[j as int]);
        if !words_only_in(c.as_slice()) {
            return Err(invalid("ERROR: line ", c.as_slice(), " contains something other than alphanumeric chars"));
        }
        if c.len() == 0 {
            return Err(IdlError::Malformed);
        }
        if !is_alphabetic(c[0]) {
            return Err(invalid_after("ERROR: enum variant first char is not alphabetic: ", c.as_slice()));
        }
        if starts_with_str(c.as_slice(), "ENDENUM") {
            if !contains_variant {
                return Err(invalid_text("ERROR: could not find one variant in enum"));
            }
            push_str(&mut out, "}\n");
            return Ok((out, j));
        }
        let w = leading_word_len(c.as_slice());
        let variant = sub_chars(c.as_slice(), 0, w);
        assert(variant@ =~= leading_word(c@));
        push_str(&mut out, "  ");
        push_chars(&mut out, variant.as_slice());
        push_str(&mut out, ",\n");
        proof {
            let nv = vars.push(variant@);
            assert(nv.drop_last() =~= vars);
            vars = nv;
        }
        contains_variant = true;
        assert(out@ =~= enum_head(name@) + variant_lines(vars));
        j = j + 1;
    }
    if !contains_variant {
        return Err(invalid_text("ERROR: could not find one variant in enum"));
    }
    Err(invalid_text("ERROR: Could not find ENDENUM"))
}


// ---------------------------------------------------------------------------
// STRUCT blocks
// ---------------------------------------------------------------------------

/// Reads the field lines of a struct from line `j` on, after `fields`: each
/// line, trimmed, must be `<type> <name>` (two tokens split on single spaces)
/// with a supported type; the first that starts with `ENDSTRUCT` ends the
/// block. The fields and the index of the `ENDSTRUCT` line.
pub open spec fn struct_scan(lines: Seq<Seq<char>>, j: int, fields: Seq<(Type, Seq<char>)>) -> Result<
    (Seq<(Type, Seq<char>)>, int),
    Fail,
>
    decreases lines.len() - j,
{
    if j >= lines.len() {
        if fields.len() == 0 {
            Err(Fail::Invalid("ERROR: could not find one variant in struct"@))
        } else {
            Err(Fail::Invalid("ERROR: Could not find ENDSTRUCT"@))
        }
    } else {
        let c = trimmed(lines[j]);
        let toks = split_on(c, ' ');
        if "ENDSTRUCT"@.is_prefix_of(c) {
            if fields.len() == 0 {
                Err(Fail::Invalid("ERROR: could not find one variant in struct"@))
            } else {
                Ok((fields, j))
            }
        } else if toks.len() != 2 {
            Err(Fail::Invalid("ERROR: struct parsing failed at line: "@ + c))
        } else {
            match type_named(toks[0]) {
                None => Err(
                    Fail::Invalid(
                        "ERROR: struct parsing failed at line: "@ + c + ". Data type not supported"@,
                    ),
                ),
                Some(t) => struct_scan(lines, j + 1, fields.push((t, toks[1]))),
            }
        }
    }
}

/// The line written for a field.
pub open spec fn field_line(f: (Type, Seq<char>)) -> Seq<char> {
    if f.0 == Type::INT {
        f.1 + ": i64,\n"@
    } else {
        f.1 + ": String,\n"@
    }
}

/// The lines written for the fields.
pub open spec fn field_lines(fs: Seq<(Type, Seq<char>)>) -> Seq<char>
    decreases fs.len(),
{
    if fs.len() == 0 {
        Seq::empty()
    } else {
        field_lines(fs.drop_last()) + field_line(fs.last())
    }
}

/// The first lines written for a struct.
pub open spec fn struct_head(name: Seq<char>) -> Seq<char> {
    "\n"@ + "#[derive(Debug)]\n"@ + "struct "@ + name + " {\n"@
}

/// The struct written for a `STRUCT` block.
pub open spec fn struct_text(name: Seq<char>, fs: Seq<(Type, Seq<char>)>) -> Seq<char> {
    struct_head(name) + field_lines(fs) + "}\n"@
}

/// The `STRUCT` block that starts on line `i`: its name, the code written for
/// it, and the index of its `ENDSTRUCT` line.
pub open spec fn struct_block(lines: Seq<Seq<char>>, i: int, defined: Seq<Seq<char>>) -> Result<
    (Seq<char>, Seq<char>, int),
    Fail,
> {
    match named_block(lines, i, 6, "struct"@, defined) {
        Err(e) => Err(e),
        Ok(name) => match struct_scan(lines, i + 1, Seq::empty()) {
            Err(e) => Err(e),
            Ok((fs, j)) => Ok((name, struct_text(name, fs), j)),
        },
    }
}

/// The scan ends at or after where it starts.
pub proof fn lemma_struct_scan_end(lines: Seq<Seq<char>>, j: int, fields: Seq<(Type, Seq<char>)>)
    ensures
        struct_scan(lines, j, fields) matches Ok((_, k)) ==> j <= k < lines.len(),
    decreases lines.len() - j,
{
    if j < lines.len() {
        let toks = split_on(trimmed(lines[j]), ' ');
        if toks.len() == 2 {
            if let Some(t) = type_named(toks[0]) {
                lemma_struct_scan_end(lines, j + 1, fields.push((t, toks[1])));
            }
        }
    }
}

/// Reads the `STRUCT` block that starts on line `i` and writes a Rust struct
/// for it; the struct's name is added to `structs_defined` once it has been
/// read.
pub fn consume_struct(lines: &Vec<Vec<char>>, i: usize, structs_defined: &mut Vec<Vec<char>>) -> (r:
    Result<(Vec<char>, usize), IdlError>)
    requires
        i < lines@.len(),
    ensures
        written(r) == text_and_end(
            struct_block(texts(lines@), i as int, texts(old(structs_defined)@)),
        ),
        texts(final(structs_defined)@) == added_name(
            named_block(texts(lines@), i as int, 6, "struct"@, texts(old(structs_defined)@)),
            texts(old(structs_defined)@),
        ),
{
    let ghost ls = texts(lines@);
    let ghost before = texts(structs_defined@);
    let name = match take_name(lines, i, 6, "struct", structs_defined) {
        Ok(n) => n,
        Err(e) => return Err(e),
    };
    let mut out: Vec<char> = Vec::new();
    push_str(&mut out, "\n");
    push_str(&mut out, "#[derive(Debug)]\n");
    push_str(&mut out, "struct ");
    push_chars(&mut out, name.as_slice());
    push_str(&mut out, " {\n");
    let n = lines.len();
    let mut j = i + 1;
    let ghost mut fields: Seq<(Type, Seq<char>)> = Seq::empty();
    let mut contains_variant = false;
    assert(out@ =~= struct_head(name@) + field_lines(fields));
    while j < n
        invariant
            ls == texts(lines@),
            named_block(ls, i as int, 6, "struct"@, before) == Ok::<Seq<char>, Fail>(name@),
            texts(structs_defined@) == before.push(name@),
            before == texts(old(structs_defined)@),
            contains_variant == (fields.len() > 0),
            n == lines@.len(),
            i < j <= n,
            struct_scan(ls, i + 1, Seq::empty()) == struct_scan(ls, j as int, fields),
            out@ == struct_head(name@) + field_lines(fields),
        decreases n - j,
    {
        let c = trim(lines[j].as_slice());
        assert(lines@[j as int]@ == ls[j as int]);
        let toks = split(c.as_slice(), ' ');
        if starts_with_str(c.as_slice(), "ENDSTRUCT") {
            if !contains_variant {
                return Err(invalid_text("ERROR: could not find one variant in struct"));
            }
            push_str(&mut out, "}\n");
            return Ok((out, j));
        }
        if toks.len() != 2 {
            return Err(invalid_after("ERROR: struct parsing failed at line: ", c.as_slice()));
        }
        assert(toks@[0]@ == texts(toks@)[0]);
        assert(toks@[1]@ == texts(toks@)[1]);
        let t = match Type::from_str(toks[0].as_slice()) {
            Ok(t) => t,
            Err(_) => {
                return Err(invalid("ERROR: struct parsing failed at line: ", c.as_slice(), ". Data type not supported"));
            },
        };
        push_chars(&mut out, toks[1].as_slice());
        match t {
            Type::INT => push_str(&mut out, ": i64,\n"),
            _ => push_str(&mut out, ": String,\n"),
        }
        proof {
            let nf = fields.push((t, toks@[1]@));
            assert(nf.drop_last() =~= fields);
            fields = nf;
        }
        contains_variant = true;
        assert(out@ =~= struct_head(name@) + field_lines(fields));
        j = j + 1;
    }
    if !contains_variant {
        return Err(invalid_text("ERROR: could not find one variant in struct"));
    }
    Err(invalid_text("ERROR: Could not find ENDSTRUCT"))
}


// ---------------------------------------------------------------------------
// FUNCTION blocks
// ---------------------------------------------------------------------------

/// What a `FUNCTION` block declares: the function's name, its parameters
/// (type and name), its return type, and the index of its `ENDFUNCTION` line.
pub struct FunctionSig {
    pub name: Seq<char>,
    pub params: Seq<(Type, Seq<char>)>,
    pub ret: Type,
    pub end: int,
}

/// The failure for a line of a function block that cannot be read.
pub open spec fn bad_func_line(c: Seq<char>) -> Fail {
    Fail::Invalid("ERROR: func parsing failed at line: "@ + c)
}

/// Reads the lines of a function from line `j` on, after `params` and the
/// return type `ret`; `seen` tells whether a parameter or return line came
/// before. Each line, trimmed and split on single spaces, is `IN <type>
/// <name>` (three tokens) or `OUT <type>` (two tokens, and the next line
/// must contain `ENDFUNCTION`); the first that starts with `ENDFUNCTION` ends
/// the block. The parameters, the return type and the index of the
/// `ENDFUNCTION` line.
pub open spec fn func_scan(
    lines: Seq<Seq<char>>,
    j: int,
    params: Seq<(Type, Seq<char>)>,
    ret: Type,
    seen: bool,
) -> Result<(Seq<(Type, Seq<char>)>, Type, int), Fail>
    decreases lines.len() - j,
{
    if j >= lines.len() {
        if !seen {
            Err(Fail::Invalid("ERROR: could not find one variant in func"@))
        } else {
            Err(Fail::Invalid("ERROR: Could not find ENDFUNCTION"@))
        }
    } else {
        let c = trimmed(lines[j]);
        let toks = split_on(c, ' ');
        if "ENDFUNCTION"@.is_prefix_of(c) {
            if !seen {
                Err(Fail::Invalid("ERROR: could not find one variant in func"@))
            } else {
                Ok((params, ret, j))
            }
        } else if ("IN"@.is_prefix_of(c) && toks.len() != 3) || ("OUT"@.is_prefix_of(c)
            && toks.len() != 2) {
            Err(bad_func_line(c))
        } else if toks.len() < 2 {
            Err(Fail::Malformed)
        } else {
            match type_named(toks[1]) {
                None => Err(
                    Fail::Invalid(
                        "ERROR: func parsing failed at line: "@ + c + ". Data type not supported"@,
                    ),
                ),
                Some(t) => if toks[0] == "IN"@ {
                    func_scan(lines, j + 1, params.push((t, toks[2])), ret, true)
                } else if toks[0] == "OUT"@ {
                    if j + 1 >= lines.len() {
                        Err(Fail::Malformed)
                    } else if !occurs_in("ENDFUNCTION"@, trimmed(lines[j + 1])) {
                        Err(
                            Fail::Invalid(
                                "ERROR: func parsing failed at line: "@ + trimmed(lines[j + 1])
                                    + ". ENDFUNCTION not at next line to OUT"@,
                            ),
                        )
                    } else {
                        func_scan(lines, j + 1, params, t, true)
                    }
                } else {
                    Err(bad_func_line(c))
                },
            }
        }
    }
}

/// The `FUNCTION` block that starts on line `i`.
pub open spec fn function_block(lines: Seq<Seq<char>>, i: int, defined: Seq<Seq<char>>) -> Result<
    FunctionSig,
    Fail,
> {
    match named_block(lines, i, 8, "func"@, defined) {
        Err(e) => Err(e),
        Ok(name) => match func_scan(lines, i + 1, Seq::empty(), Type::EMPTY, false) {
            Err(e) => Err(e),
            Ok((ps, ret, j)) => Ok(FunctionSig { name, params: ps, ret, end: j }),
        },
    }
}

/// The scan ends at or after where it starts.
pub proof fn lemma_func_scan_end(
    lines: Seq<Seq<char>>,
    j: int,
    params: Seq<(Type, Seq<char>)>,
    ret: Type,
    seen: bool,
)
    ensures
        func_scan(lines, j, params, ret, seen) matches Ok((_, _, k)) ==> j <= k < lines.len(),
    decreases lines.len() - j,
{
    if j < lines.len() {
        let toks = split_on(trimmed(lines[j]), ' ');
        if toks.len() >= 2 {
            if let Some(t) = type_named(toks[1]) {
                lemma_func_scan_end(lines, j + 1, params.push((t, toks[2])), ret, true);
                lemma_func_scan_end(lines, j + 1, params, t, true);
            }
        }
    }
}

/// A function block's end is after its first line.
pub proof fn lemma_function_block_end(lines: Seq<Seq<char>>, i: int, defined: Seq<Seq<char>>)
    ensures
        function_block(lines, i, defined) matches Ok(f) ==> i < f.end < lines.len(),
{
    lemma_func_scan_end(lines, i + 1, Seq::empty(), Type::EMPTY, false);
}

/// An enum block's end is after its first line.
pub proof fn lemma_enum_block_end(lines: Seq<Seq<char>>, i: int, defined: Seq<Seq<char>>)
    ensures
        enum_block(lines, i, defined) matches Ok((_, _, j)) ==> i < j < lines.len(),
{
    lemma_enum_scan_end(lines, i + 1, Seq::empty());
}

/// A struct block's end is after its first line.
pub proof fn lemma_struct_block_end(lines: Seq<Seq<char>>, i: int, defined: Seq<Seq<char>>)
    ensures
        struct_block(lines, i, defined) matches Ok((_, _, j)) ==> i < j < lines.len(),
{
    lemma_struct_scan_end(lines, i + 1, Seq::empty());
}

/// Every parameter a function scan gathers is an `INT` or a `STRING`.
proof fn lemma_func_scan_param_types(
    lines: Seq<Seq<char>>,
    j: int,
    params: Seq<(Type, Seq<char>)>,
    ret: Type,
    seen: bool,
)
    requires
        forall|k: int| 0 <= k < params.len() ==> (#[trigger] params[k]).0 != Type::EMPTY,
    ensures
        func_scan(lines, j, params, ret, seen) matches Ok((ps, _, _)) ==> forall|k: int|
            0 <= k < ps.len() ==> (#[trigger] ps[k]).0 != Type::EMPTY,
    decreases lines.len() - j,
{
    if j < lines.len() {
        let toks = split_on(trimmed(lines[j]), ' ');
        if toks.len() >= 2 {
            if let Some(t) = type_named(toks[1]) {
                let more = params.push((t, toks[2]));
                assert forall|k: int| 0 <= k < more.len() implies (#[trigger] more[k]).0
                    != Type::EMPTY by {
                    if k < params.len() {
                        assert(more[k] == params[k]);
                    }
                }
                lemma_func_scan_param_types(lines, j + 1, more, ret, true);
                lemma_func_scan_param_types(lines, j + 1, params, t, true);
            }
        }
    }
}

/// Functions take only integers and strings: every parameter of an accepted
/// `FUNCTION` block is an `INT` or a `STRING`, written as `i64` or `String`.
pub proof fn lemma_function_params_supported(lines: Seq<Seq<char>>, i: int, defined: Seq<Seq<char>>)
    ensures
        function_block(lines, i, defined) matches Ok(f) ==> forall|k: int|
            0 <= k < f.params.len() ==> {
                &&& (f.params[k].0 == Type::INT || f.params[k].0 == Type::STRING)
                &&& (rust_type_text(f.params[k].0) == "i64"@ || rust_type_text(f.params[k].0)
                    == "String"@)
            },
{
    lemma_func_scan_param_types(lines, i + 1, Seq::empty(), Type::EMPTY, false);
}

/// The views of parameters.
pub open spec fn param_views(ps: Seq<(Type, Vec<char>)>) -> Seq<(Type, Seq<char>)> {
    ps.map_values(|p: (Type, Vec<char>)| (p.0, p.1@))
}

/// No parameter has the empty type.
pub open spec fn typed_params(ps: Seq<(Type, Vec<char>)>) -> bool {
    forall|k: int| 0 <= k < ps.len() ==> (#[trigger] ps[k]).0 != Type::EMPTY
}

/// Reads the `FUNCTION` block that starts on line `i`: its name, parameters,
/// return type and the index of its `ENDFUNCTION` line. The function's name
/// is added to `funcs_defined` once it has been read.
pub fn read_function(lines: &Vec<Vec<char>>, i: usize, funcs_defined: &mut Vec<Vec<char>>) -> (r:
    Result<(Vec<char>, Vec<(Type, Vec<char>)>, Type, usize), IdlError>)
    requires
        i < lines@.len(),
    ensures
        match r {
            Ok((n, ps, t, j)) => function_block(texts(lines@), i as int, texts(old(funcs_defined)@))
                == Ok::<FunctionSig, Fail>(
                FunctionSig { name: n@, params: param_views(ps@), ret: t, end: j as int },
            ) && typed_params(ps@),
            Err(e) => function_block(texts(lines@), i as int, texts(old(funcs_defined)@)) == Err::<
                FunctionSig,
                Fail,
            >(e@),
        },
        texts(final(funcs_defined)@) == added_name(
            named_block(texts(lines@), i as int, 8, "func"@, texts(old(funcs_defined)@)),
            texts(old(funcs_defined)@),
        ),
{
    let ghost ls = texts(lines@);
    let ghost before = texts(funcs_defined@);
    let name = match take_name(lines, i, 8, "func", funcs_defined) {
        Ok(n) => n,
        Err(e) => return Err(e),
    };
    let n = lines.len();
    let mut j = i + 1;
    let mut params: Vec<(Type, Vec<char>)> = Vec::new();
    let mut return_type = Type::EMPTY;
    let mut contains_variant = false;
    assert(param_views(params@) =~= Seq::<(Type, Seq<char>)>::empty());
    while j < n
        invariant
            ls == texts(lines@),
            named_block(ls, i as int, 8, "func"@, before) == Ok::<Seq<char>, Fail>(name@),
            texts(funcs_defined@) == before.push(name@),
            before == texts(old(funcs_defined)@),
            n == lines@.len(),
            i < j <= n,
            typed_params(params@),
            func_scan(ls, i + 1, Seq::empty(), Type::EMPTY, false) == func_scan(
                ls,
                j as int,
                param_views(params@),
                return_type,
                contains_variant,
            ),
        decreases n - j,
    {
        let c = trim(lines[j].as_slice());
        assert(lines@[j as int]@ == ls[j as int]);
        let toks = split(c.as_slice(), ' ');
        if starts_with_str(c.as_slice(), "ENDFUNCTION") {
            if !contains_variant {
                return Err(invalid_text("ERROR: could not find one variant in func"));
            }
            return Ok((name, params, return_type, j));
        }
        let is_in = starts_with_str(c.as_slice(), "IN");
        let is_out = starts_with_str(c.as_slice(), "OUT");
        if (is_in && toks.len() != 3) || (is_out && toks.len() != 2) {
            return Err(invalid_after("ERROR: func parsing failed at line: ", c.as_slice()));
        }
        if toks.len() < 2 {
            return Err(IdlError::Malformed);
        }
        assert(toks@[0]@ == texts(toks@)[0]);
        assert(toks@[1]@ == texts(toks@)[1]);
        let t = match Type::from_str(toks[1].as_slice()) {
            Ok(t) => t,
            Err(_) => {
                return Err(invalid("ERROR: func parsing failed at line: ", c.as_slice(), ". Data type not supported"));
            },
        };
        if is_text(toks[0].as_slice(), "IN") {
            proof {
                lemma_split_first_prefix(c@, ' ');
            }
            assert(toks@[2]@ == texts(toks@)[2]);
            let var = copy_chars(toks[2].as_slice());
            let ghost old_params = params@;
            params.push((t, var));
            assert(param_views(params@) =~= param_views(old_params).push((t, toks@[2]@)));
        } else if is_text(toks[0].as_slice(), "OUT") {
            return_type = t;
            if j + 1 >= n {
                return Err(IdlError::Malformed);
            }
            let next = trim(lines[j + 1].as_slice());
            assert(lines@[j + 1]@ == ls[j + 1]);
            if !contains_str(next.as_slice(), "ENDFUNCTION") {
                return Err(invalid("ERROR: func parsing failed at line: ", next.as_slice(), ". ENDFUNCTION not at next line to OUT"));
            }
        } else {
            return Err(invalid_after("ERROR: func parsing failed at line: ", c.as_slice()));
        }
        contains_variant = true;
        j = j + 1;
    }
    if !contains_variant {
        return Err(invalid_text("ERROR: could not find one variant in func"));
    }
    Err(invalid_text("ERROR: Could not find ENDFUNCTION"))
}


/// The text written for a parameter in a parameter list.
pub open spec fn param_text(p: (Type, Seq<char>)) -> Seq<char> {
    " "@ + p.1 + ": "@ + rust_type_text(p.0) + ", "@
}

/// The parameter list written for the parameters.
pub open spec fn param_list(ps: Seq<(Type, Seq<char>)>) -> Seq<char>
    decreases ps.len(),
{
    if ps.len() == 0 {
        Seq::empty()
    } else {
        param_list(ps.drop_last()) + param_text(ps.last())
    }
}

/// The `Operand` expression written for a parameter.
pub open spec fn operand_expr(p: (Type, Seq<char>)) -> Seq<char> {
    match p.0 {
        Type::INT => "Operand::Int("@ + p.1 + ")"@,
        Type::STRING => "Operand::Str("@ + p.1 + ")"@,
        Type::EMPTY => Seq::empty(),
    }
}

/// The entry written for a parameter in the `operands` vector.
pub open spec fn operand_line(p: (Type, Seq<char>)) -> Seq<char> {
    "( String::from_str(\""@ + p.1 + "\").unwrap(), "@ + operand_expr(p) + " ),\n "@
}

/// The entries written for the parameters in the `operands` vector.
pub open spec fn operand_lines(ps: Seq<(Type, Seq<char>)>) -> Seq<char>
    decreases ps.len(),
{
    if ps.len() == 0 {
        Seq::empty()
    } else {
        operand_lines(ps.drop_last()) + operand_line(ps.last())
    }
}

/// The line that names the function inside its body.
pub open spec fn func_name_line(name: Seq<char>) -> Seq<char> {
    "    let func_name: String = String::from_str(\""@ + name + "\").unwrap();\n"@
}

/// The declaration written into the client's `RpcFunction` trait.
pub open spec fn client_decl(f: FunctionSig) -> Seq<char> {
    "\n"@ + "  fn "@ + f.name + " (client: &Client, "@ + param_list(f.params) + ");\n\n"@
}

/// The definition written into the client's `impl RpcFunction for ()`: it
/// packs the arguments with their names and sends them to the server.
pub open spec fn client_def(f: FunctionSig) -> Seq<char> {
    "\n"@ + "  fn "@ + f.name + " (client: &Client, "@ + param_list(f.params) + ")"@ + " -> "@
        + rust_type_text(f.ret) + " {\n"@ + func_name_line(f.name) + "    let operands = vec!["@
        + operand_lines(f.params) + "];\n\n"@ + "    let json_str = pack(func_name, operands);\n\n"@
        + "    client.send_async(json_str.as_str()).unwrap();\n"@ + "  }\n"@
}

/// The text the server side writes for a function (its signature and the
/// start of its body).
pub open spec fn server_def(f: FunctionSig) -> Seq<char> {
    "\n"@ + "  fn "@ + f.name + " ("@ + param_list(f.params) + ")"@ + " -> "@ + rust_type_text(f.ret)
        + " {\n"@ + func_name_line(f.name) + "    let operands = vec!["@ + operand_lines(f.params)
}

/// Appends the Rust type written for `t`.
fn push_rust_type(out: &mut Vec<char>, t: Type)
    ensures
        final(out)@ == old(out)@ + rust_type_text(t),
{
    let s = t.to_rust_type();
    push_str(out, s.as_str());
}

/// Appends the parameter list.
fn push_param_list(out: &mut Vec<char>, params: &Vec<(Type, Vec<char>)>)
    ensures
        final(out)@ == old(out)@ + param_list(param_views(params@)),
{
    let ghost start = out@;
    let ghost ps = param_views(params@);
    let n = params.len();
    assert(ps.take(0) =~= Seq::<(Type, Seq<char>)>::empty());
    for k in 0..n
        invariant
            n == params@.len(),
            ps == param_views(params@),
            out@ == start + param_list(ps.take(k as int)),
    {
        let p = &params[k];
        push_str(out, " ");
        push_chars(out, p.1.as_slice());
        push_str(out, ": ");
        push_rust_type(out, p.0);
        push_str(out, ", ");
        assert(ps.take(k + 1).drop_last() =~= ps.take(k as int));
        assert(ps[k as int] == (p.0, p.1@));
        assert(out@ =~= start + param_list(ps.take(k + 1)));
    }
    assert(ps.take(n as int) =~= ps);
}

/// Appends the entries of the `operands` vector.
fn push_operand_lines(out: &mut Vec<char>, params: &Vec<(Type, Vec<char>)>)
    requires
        typed_params(params@),
    ensures
        final(out)@ == old(out)@ + operand_lines(param_views(params@)),
{
    let ghost start = out@;
    let ghost ps = param_views(params@);
    let n = params.len();
    assert(ps.take(0) =~= Seq::<(Type, Seq<char>)>::empty());
    for k in 0..n
        invariant
            n == params@.len(),
            typed_params(params@),
            ps == param_views(params@),
            out@ == start + operand_lines(ps.take(k as int)),
    {
        let p = &params[k];
        assert(params@[k as int].0 != Type::EMPTY);
        push_str(out, "( String::from_str(\"");
        push_chars(out, p.1.as_slice());
        push_str(out, "\").unwrap(), ");
        match p.0 {
            Type::INT => push_str(out, "Operand::Int("),
            _ => push_str(out, "Operand::Str("),
        }
        push_chars(out, p.1.as_slice());
        push_str(out, ")");
        push_str(out, " ),\n ");
        assert(ps.take(k + 1).drop_last() =~= ps.take(k as int));
        assert(ps[k as int] == (p.0, p.1@));
        assert(out@ =~= start + operand_lines(ps.take(k + 1)));
    }
    assert(ps.take(n as int) =~= ps);
}

/// The result of reading a function block for the client: its declaration,
/// its definition and its end.
pub open spec fn client_function(r: Result<FunctionSig, Fail>) -> Result<
    (Seq<char>, Seq<char>, int),
    Fail,
> {
    match r {
        Ok(f) => Ok((client_decl(f), client_def(f), f.end)),
        Err(e) => Err(e),
    }
}

/// The result of reading a function block for the server: its text and its
/// end.
pub open spec fn server_function(r: Result<FunctionSig, Fail>) -> Result<(Seq<char>, int), Fail> {
    match r {
        Ok(f) => Ok((server_def(f), f.end)),
        Err(e) => Err(e),
    }
}

/// The view of a client function's result.
pub open spec fn written_pair(r: Result<(Vec<char>, Vec<char>, usize), IdlError>) -> Result<
    (Seq<char>, Seq<char>, int),
    Fail,
> {
    match r {
        Ok((d, f, j)) => Ok((d@, f@, j as int)),
        Err(e) => Err(e@),
    }
}

/// Reads the `FUNCTION` block that starts on line `i` and writes, for the
/// client, its declaration in the `RpcFunction` trait and its definition.
pub fn consume_function_client(
    lines: &Vec<Vec<char>>,
    i: usize,
    funcs_defined: &mut Vec<Vec<char>>,
) -> (r: Result<(Vec<char>, Vec<char>, usize), IdlError>)
    requires
        i < lines@.len(),
    ensures
        written_pair(r) == client_function(
            function_block(texts(lines@), i as int, texts(old(funcs_defined)@)),
        ),
        texts(final(funcs_defined)@) == added_name(
            named_block(texts(lines@), i as int, 8, "func"@, texts(old(funcs_defined)@)),
            texts(old(funcs_defined)@),
        ),
{
    let (func_name, params, return_type, j) = match read_function(lines, i, funcs_defined) {
        Ok(x) => x,
        Err(e) => return Err(e),
    };
    let ghost f = FunctionSig {
        name: func_name@,
        params: param_views(params@),
        ret: return_type,
        end: j as int,
    };
    let mut decl_str: Vec<char> = Vec::new();
    push_str(&mut decl_str, "\n");
    push_str(&mut decl_str, "  fn ");
    push_chars(&mut decl_str, func_name.as_slice());
    push_str(&mut decl_str, " (client: &Client, ");
    push_param_list(&mut decl_str, &params);
    push_str(&mut decl_str, ");\n\n");
    assert(decl_str@ =~= client_decl(f));

    let mut out_str: Vec<char> = Vec::new();
    push_str(&mut out_str, "\n");
    push_str(&mut out_str, "  fn ");
    push_chars(&mut out_str, func_name.as_slice());
    push_str(&mut out_str, " (client: &Client, ");
    push_param_list(&mut out_str, &params);
    push_str(&mut out_str, ")");
    push_str(&mut out_str, " -> ");
    push_rust_type(&mut out_str, return_type);
    push_str(&mut out_str, " {\n");
    push_str(&mut out_str, "    let func_name: String = String::from_str(\"");
    push_chars(&mut out_str, func_name.as_slice());
    push_str(&mut out_str, "\").unwrap();\n");
    push_str(&mut out_str, "    let operands = vec![");
    push_operand_lines(&mut out_str, &params);
    push_str(&mut out_str, "];\n\n");
    push_str(&mut out_str, "    let json_str = pack(func_name, operands);\n\n");
    push_str(&mut out_str, "    client.send_async(json_str.as_str()).unwrap();\n");
    push_str(&mut out_str, "  }\n");
    assert(out_str@ =~= client_def(f));
    Ok((decl_str, out_str, j))
}

/// Reads the `FUNCTION` block that starts on line `i` and writes the server's
/// text for it.
pub fn consume_function_server(
    lines: &Vec<Vec<char>>,
    i: usize,
    funcs_defined: &mut Vec<Vec<char>>,
) -> (r: Result<(Vec<char>, usize), IdlError>)
    requires
        i < lines@.len(),
    ensures
        written(r) == server_function(
            function_block(texts(lines@), i as int, texts(old(funcs_defined)@)),
        ),
        texts(final(funcs_defined)@) == added_name(
            named_block(texts(lines@), i as int, 8, "func"@, texts(old(funcs_defined)@)),
            texts(old(funcs_defined)@),
        ),
{
    let (func_name, params, return_type, j) = match read_function(lines, i, funcs_defined) {
        Ok(x) => x,
        Err(e) => return Err(e),
    };
    let ghost f = FunctionSig {
        name: func_name@,
        params: param_views(params@),
        ret: return_type,
        end: j as int,
    };
    let mut out_str: Vec<char> = Vec::new();
    push_str(&mut out_str, "\n");
    push_str(&mut out_str, "  fn ");
    push_chars(&mut out_str, func_name.as_slice());
    push_str(&mut out_str, " (");
    push_param_list(&mut out_str, &params);
    push_str(&mut out_str, ")");
    push_str(&mut out_str, " -> ");
    push_rust_type(&mut out_str, return_type);
    push_str(&mut out_str, " {\n");
    push_str(&mut out_str, "    let func_name: String = String::from_str(\"");
    push_chars(&mut out_str, func_name.as_slice());
    push_str(&mut out_str, "\").unwrap();\n");
    push_str(&mut out_str, "    let operands = vec![");
    push_operand_lines(&mut out_str, &params);
    assert(out_str@ =~= server_def(f));
    Ok((out_str, j))
}

// ---------------------------------------------------------------------------
// what the written code holds
// ---------------------------------------------------------------------------

/// The variant that an enum line declares is its whole first word: a prefix
/// of the line that holds no whitespace and that runs to the end of the line
/// or up to a whitespace character.
pub proof fn lemma_variant_is_first_word(c: Seq<char>)
    ensures
        leading_word(c).is_prefix_of(c),
        forall|k: int| 0 <= k < leading_word(c).len() ==> !whitespace_char(#[trigger] c[k]),
        leading_word(c).len() == c.len() || whitespace_char(c[leading_word(c).len() as int]),
        (forall|k: int| 0 <= k < c.len() ==> !whitespace_char(#[trigger] c[k])) ==> leading_word(c)
            == c,
{
    lemma_word_end(c, 0);
    let w = word_end(c, 0);
    assert(leading_word(c) =~= c.subrange(0, w));
    if forall|k: int| 0 <= k < c.len() ==> !whitespace_char(#[trigger] c[k]) {
        if w < c.len() {
            assert(!whitespace_char(c[w]));
        }
        assert(c.take(w) =~= c);
    }
}

/// `word_end` stops at the first whitespace character at or after `k`.
proof fn lemma_word_end(c: Seq<char>, k: int)
    requires
        0 <= k <= c.len(),
    ensures
        k <= word_end(c, k) <= c.len(),
        forall|q: int| k <= q < word_end(c, k) ==> !whitespace_char(#[trigger] c[q]),
        word_end(c, k) < c.len() ==> whitespace_char(c[word_end(c, k)]),
    decreases c.len() - k,
{
    if k < c.len() && !whitespace_char(c[k]) {
        lemma_word_end(c, k + 1);
    }
}

/// The variants of an enum are written one line each, in order: the lines
/// for two runs of variants are the lines of the first run, then those of
/// the second, and a single variant `v` is written `  v,` and a newline.
pub proof fn lemma_variant_lines(vs: Seq<Seq<char>>, ws: Seq<Seq<char>>, v: Seq<char>)
    ensures
        variant_lines(vs + ws) == variant_lines(vs) + variant_lines(ws),
        variant_lines(seq![v]) == "  "@ + v + ",\n"@,
    decreases ws.len(),
{
    let one = seq![v];
    assert(one.drop_last() =~= Seq::<Seq<char>>::empty());
    assert(variant_lines(one.drop_last()) == Seq::<char>::empty());
    assert(one.last() == v);
    assert(variant_lines(one) =~= "  "@ + v + ",\n"@);
    if ws.len() == 0 {
        assert(vs + ws =~= vs);
        assert(variant_lines(vs) + variant_lines(ws) =~= variant_lines(vs));
    } else {
        lemma_variant_lines(vs, ws.drop_last(), v);
        assert((vs + ws).drop_last() =~= vs + ws.drop_last());
        assert((vs + ws).last() == ws.last());
        assert(variant_lines(vs + ws) =~= variant_lines(vs) + variant_lines(ws));
    }
}

/// The fields of a struct are written one line each, in order, each with the
/// Rust type of its own type token: the lines for two runs of fields are the
/// lines of the first run, then those of the second, and a single field
/// `n` is written `n: i64,` for `INT` and `n: String,` for `STRING`.
pub proof fn lemma_field_lines(fs: Seq<(Type, Seq<char>)>, gs: Seq<(Type, Seq<char>)>, f: (Type, Seq<char>))
    ensures
        field_lines(fs + gs) == field_lines(fs) + field_lines(gs),
        f.0 == Type::INT ==> field_lines(seq![f]) == f.1 + ": i64,\n"@,
        f.0 == Type::STRING ==> field_lines(seq![f]) == f.1 + ": String,\n"@,
    decreases gs.len(),
{
    let one = seq![f];
    assert(one.drop_last() =~= Seq::<(Type, Seq<char>)>::empty());
    assert(field_lines(one.drop_last()) == Seq::<char>::empty());
    assert(one.last() == f);
    assert(field_lines(one) =~= field_line(f));
    if gs.len() == 0 {
        assert(fs + gs =~= fs);
        assert(field_lines(fs) + field_lines(gs) =~= field_lines(fs));
    } else {
        lemma_field_lines(fs, gs.drop_last(), f);
        assert((fs + gs).drop_last() =~= fs + gs.drop_last());
        assert((fs + gs).last() == gs.last());
        assert(field_lines(fs + gs) =~= field_lines(fs) + field_lines(gs));
    }
}

/// The struct written for a block holds its fields' lines between its
/// opening line and its closing brace.
pub proof fn lemma_struct_text_holds_fields(name: Seq<char>, fs: Seq<(Type, Seq<char>)>)
    ensures
        struct_text(name, fs) == "\n#[derive(Debug)]\nstruct "@ + name + " {\n"@ + field_lines(fs)
            + "}\n"@,
{
    reveal_strlit("\n");
    reveal_strlit("#[derive(Debug)]\n");
    reveal_strlit("struct ");
    reveal_strlit("\n#[derive(Debug)]\nstruct ");
    assert("\n"@ + "#[derive(Debug)]\n"@ + "struct "@ =~= "\n#[derive(Debug)]\nstruct "@);
    assert(struct_text(name, fs) =~= "\n#[derive(Debug)]\nstruct "@ + name + " {\n"@ + field_lines(
        fs,
    ) + "}\n"@);
}

/// The parameters of a function are written in order, each with the Rust
/// type of its own type token: the lists for two runs of parameters are the
/// list of the first run, then that of the second, and a single parameter
/// `n` is written ` n: i64, ` for `INT` and ` n: String, ` for `STRING`.
pub proof fn lemma_param_list(ps: Seq<(Type, Seq<char>)>, qs: Seq<(Type, Seq<char>)>, p: (Type, Seq<char>))
    ensures
        param_list(ps + qs) == param_list(ps) + param_list(qs),
        p.0 == Type::INT ==> param_list(seq![p]) == " "@ + p.1 + ": i64, "@,
        p.0 == Type::STRING ==> param_list(seq![p]) == " "@ + p.1 + ": String, "@,
    decreases qs.len(),
{
    let one = seq![p];
    assert(one.drop_last() =~= Seq::<(Type, Seq<char>)>::empty());
    assert(param_list(one.drop_last()) == Seq::<char>::empty());
    assert(one.last() == p);
    assert(param_list(one) =~= param_text(p));
    reveal_strlit(": ");
    reveal_strlit(", ");
    reveal_strlit("i64");
    reveal_strlit("String");
    reveal_strlit(": i64, ");
    reveal_strlit(": String, ");
    if p.0 == Type::INT {
        assert(param_text(p) =~= " "@ + p.1 + ": i64, "@);
    }
    if p.0 == Type::STRING {
        assert(param_text(p) =~= " "@ + p.1 + ": String, "@);
    }
    if qs.len() == 0 {
        assert(ps + qs =~= ps);
        assert(param_list(ps) + param_list(qs) =~= param_list(ps));
    } else {
        lemma_param_list(ps, qs.drop_last(), p);
        assert((ps + qs).drop_last() =~= ps + qs.drop_last());
        assert((ps + qs).last() == qs.last());
        assert(param_list(ps + qs) =~= param_list(ps) + param_list(qs));
    }
}

/// Every parameter is sent: the entries of the `operands` vector for two
/// runs of parameters are the entries of the first run, then those of the
/// second, and a single parameter `n` gets the entry
/// `( String::from_str("n").unwrap(), Operand::Int(n) ),` (`Operand::Str`
/// for `STRING`) and a newline and a space.
pub proof fn lemma_operand_lines(ps: Seq<(Type, Seq<char>)>, qs: Seq<(Type, Seq<char>)>, p: (Type, Seq<char>))
    ensures
        operand_lines(ps + qs) == operand_lines(ps) + operand_lines(qs),
        p.0 == Type::INT ==> operand_lines(seq![p]) == "( String::from_str(\""@ + p.1
            + "\").unwrap(), Operand::Int("@ + p.1 + ") ),\n "@,
        p.0 == Type::STRING ==> operand_lines(seq![p]) == "( String::from_str(\""@ + p.1
            + "\").unwrap(), Operand::Str("@ + p.1 + ") ),\n "@,
    decreases qs.len(),
{
    let one = seq![p];
    assert(one.drop_last() =~= Seq::<(Type, Seq<char>)>::empty());
    assert(operand_lines(one.drop_last()) == Seq::<char>::empty());
    assert(one.last() == p);
    assert(operand_lines(one) =~= operand_line(p));
    reveal_strlit("\").unwrap(), ");
    reveal_strlit("Operand::Int(");
    reveal_strlit("Operand::Str(");
    reveal_strlit("\").unwrap(), Operand::Int(");
    reveal_strlit("\").unwrap(), Operand::Str(");
    reveal_strlit(")");
    reveal_strlit(" ),\n ");
    reveal_strlit(") ),\n ");
    assert(")"@ + " ),\n "@ =~= ") ),\n "@);
    assert("\").unwrap(), "@ + "Operand::Int("@ =~= "\").unwrap(), Operand::Int("@);
    assert("\").unwrap(), "@ + "Operand::Str("@ =~= "\").unwrap(), Operand::Str("@);
    if p.0 == Type::INT {
        assert(operand_line(p) =~= "( String::from_str(\""@ + p.1 + "\").unwrap(), Operand::Int("@
            + p.1 + ") ),\n "@);
    }
    if p.0 == Type::STRING {
        assert(operand_line(p) =~= "( String::from_str(\""@ + p.1 + "\").unwrap(), Operand::Str("@
            + p.1 + ") ),\n "@);
    }
    if qs.len() == 0 {
        assert(ps + qs =~= ps);
        assert(operand_lines(ps) + operand_lines(qs) =~= operand_lines(ps));
    } else {
        lemma_operand_lines(ps, qs.drop_last(), p);
        assert((ps + qs).drop_last() =~= ps + qs.drop_last());
        assert((ps + qs).last() == qs.last());
        assert(operand_lines(ps + qs) =~= operand_lines(ps) + operand_lines(qs));
    }
}

/// The client definition of a function takes every parameter and packs
/// every parameter: it holds the parameter list of all of them, and the
/// `operands` vector with the entries of all of them, in order.
pub proof fn lemma_client_def_sends_every_parameter(f: FunctionSig)
    ensures
        occurs_in(" (client: &Client, "@ + param_list(f.params) + ")"@, client_def(f)),
        occurs_in("    let operands = vec!["@ + operand_lines(f.params) + "];\n\n"@, client_def(f)),
        occurs_in(" (client: &Client, "@ + param_list(f.params) + ");\n\n"@, client_decl(f)),
{
    let d = client_def(f);
    let a = "\n"@ + "  fn "@ + f.name;
    let sig = " (client: &Client, "@ + param_list(f.params) + ")"@;
    let b = a + sig + " -> "@ + rust_type_text(f.ret) + " {\n"@ + func_name_line(f.name);
    let ops = "    let operands = vec!["@ + operand_lines(f.params) + "];\n\n"@;
    let rest = "    let json_str = pack(func_name, operands);\n\n"@
        + "    client.send_async(json_str.as_str()).unwrap();\n"@ + "  }\n"@;
    assert(d =~= b + ops + rest);
    assert(d.subrange(b.len() as int, (b.len() + ops.len()) as int) =~= ops);
    assert(occurs_at(ops, d, b.len() as int));
    let tail = " -> "@ + rust_type_text(f.ret) + " {\n"@ + func_name_line(f.name) + ops + rest;
    assert(d =~= a + sig + tail);
    assert(d.subrange(a.len() as int, (a.len() + sig.len()) as int) =~= sig);
    assert(occurs_at(sig, d, a.len() as int));
    let c = client_decl(f);
    let dsig = " (client: &Client, "@ + param_list(f.params) + ");\n\n"@;
    assert(c =~= a + dsig);
    assert(c.subrange(a.len() as int, (a.len() + dsig.len()) as int) =~= dsig);
    assert(occurs_at(dsig, c, a.len() as int));
}

} // verus!
