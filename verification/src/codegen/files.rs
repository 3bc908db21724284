//! Whole interface files: the client code and the server code written for
//! them.
use vstd::prelude::*;
use crate::codegen::blocks::{
    enum_scan, leading_word, func_scan, named_block, struct_scan, type_named, Type, client_decl, client_def, consume_enum, consume_function_client, consume_function_server,
    consume_struct, enum_block, function_block, lemma_enum_block_end, lemma_function_block_end,
    lemma_struct_block_end, struct_block, Fail, FunctionSig, IdlError,
};
use crate::codegen::templates::{DUMMY_CLIENT_MAIN, DUMMY_SERVER_MAIN, PACK_FUNC_STR, UNPACK_FUNC_STR};
use crate::text::{
    lemma_split_nonempty, chars_of, is_text, push_chars, push_str, split, split_on, starts_with_str, string_from,
    texts, trim, trimmed,
};

verus! {

/// What the reader has gathered after some lines: the code of the enums and
/// structs so far, the client's function declarations and definitions so
/// far, and the names defined so far of each kind.
pub struct Gathered {
    pub types: Seq<char>,
    pub decls: Seq<char>,
    pub defs: Seq<char>,
    pub enums: Seq<Seq<char>>,
    pub structs: Seq<Seq<char>>,
    pub funcs: Seq<Seq<char>>,
}

/// Nothing gathered yet.
pub open spec fn nothing_gathered() -> Gathered {
    Gathered {
        types: Seq::empty(),
        decls: Seq::empty(),
        defs: Seq::empty(),
        enums: Seq::empty(),
        structs: Seq::empty(),
        funcs: Seq::empty(),
    }
}

/// Reads the lines from line `i` on, after `g`. Each line is trimmed; blank
/// lines and `//` comments are passed over; `ENUM`, `STRUCT` and `FUNCTION`
/// start a block that is read to its end line; any other line is refused.
pub open spec fn gather(lines: Seq<Seq<char>>, i: int, g: Gathered) -> Result<Gathered, Fail>
    decreases lines.len() - i,
{
    if i < 0 || i >= lines.len() {
        Ok(g)
    } else {
        let line = trimmed(lines[i]);
        if line == "\n"@ || line.len() == 0 || "//"@.is_prefix_of(line) {
            gather(lines, i + 1, g)
        } else if "ENUM"@.is_prefix_of(line) {
            match enum_block(lines, i, g.enums) {
                Err(e) => Err(e),
                Ok((name, text, j)) => {
                    proof {
                        lemma_enum_block_end(lines, i, g.enums);
                    }
                    gather(
                        lines,
                        j + 1,
                        Gathered {
                            types: g.types + text,
                            decls: g.decls,
                            defs: g.defs,
                            enums: g.enums.push(name),
                            structs: g.structs,
                            funcs: g.funcs,
                        },
                    )
                },
            }
        } else if "STRUCT"@.is_prefix_of(line) {
            match struct_block(lines, i, g.structs) {
                Err(e) => Err(e),
                Ok((name, text, j)) => {
                    proof {
                        lemma_struct_block_end(lines, i, g.structs);
                    }
                    gather(
                        lines,
                        j + 1,
                        Gathered {
                            types: g.types + text,
                            decls: g.decls,
                            defs: g.defs,
                            enums: g.enums,
                            structs: g.structs.push(name),
                            funcs: g.funcs,
                        },
                    )
                },
            }
        } else if "FUNCTION"@.is_prefix_of(line) {
            match function_block(lines, i, g.funcs) {
                Err(e) => Err(e),
                Ok(f) => {
                    proof {
                        lemma_function_block_end(lines, i, g.funcs);
                    }
                    gather(
                        lines,
                        f.end + 1,
                        Gathered {
                            types: g.types,
                            decls: g.decls + client_decl(f),
                            defs: g.defs + client_def(f),
                            enums: g.enums,
                            structs: g.structs,
                            funcs: g.funcs.push(f.name),
                        },
                    )
                },
            }
        } else {
            Err(Fail::Unsupported(line))
        }
    }
}

/// Everything read from an interface file.
pub open spec fn gathered(contents: Seq<char>) -> Result<Gathered, Fail> {
    gather(split_on(contents, '\n'), 0, nothing_gathered())
}

/// The header of the client code.
pub open spec fn client_header() -> Seq<char> {
    "//gen.rs - This is generated rs file, DO NOT edit manually.\n\n"@
        + "use serde::{Serialize, Deserialize};\n"@ + "use serde_json::{json};\n"@
        + "use std::{fmt, str::FromStr};\n"@ + "use std::io::{self, Read, Write};\n"@
        + "use std::net::TcpStream;\n"@ + "use log::{debug, info};\n"@ + PACK_FUNC_STR@ + "\n\n"@
}

/// The header of the server code.
pub open spec fn server_header() -> Seq<char> {
    "//gen.rs - This is generated rs file, DO NOT edit manually.\n\n"@
        + "use serde::{Serialize, Deserialize};\n"@ + "use std::io::{self, Read};\n"@
        + "use std::net::{TcpListener, TcpStream};\n"@ + "use std::collections::HashMap;\n"@
        + "use log::info;\n"@ + UNPACK_FUNC_STR@ + "\n\n"@
}

/// The client code: the header and client runtime, the enums and structs,
/// the `RpcFunction` trait with a method per function, its implementation
/// for `()`, and the example `main`.
pub open spec fn client_text(g: Gathered) -> Seq<char> {
    client_header() + g.types + client_functions(g)
}

/// The part of the client code after the enums and structs.
pub open spec fn client_functions(g: Gathered) -> Seq<char> {
    "pub trait RpcFunction {\n"@ + g.decls + "}\n"@ + "impl RpcFunction for () {\n"@ + g.defs
        + "}\n\n"@ + DUMMY_CLIENT_MAIN@
}

/// The server code: the header and server runtime, the enums and structs,
/// and the example `main`.
pub open spec fn server_text(g: Gathered) -> Seq<char> {
    server_header() + g.types + DUMMY_SERVER_MAIN@
}

/// The client code written for an interface file, or why it is refused.
pub open spec fn client_file(contents: Seq<char>) -> Result<Seq<char>, Fail> {
    match gathered(contents) {
        Ok(g) => Ok(client_text(g)),
        Err(e) => Err(e),
    }
}

/// The server code written for an interface file, or why it is refused.
pub open spec fn server_file(contents: Seq<char>) -> Result<Seq<char>, Fail> {
    match gathered(contents) {
        Ok(g) => Ok(server_text(g)),
        Err(e) => Err(e),
    }
}

/// The view of a written file.
pub open spec fn file_view(r: Result<String, IdlError>) -> Result<Seq<char>, Fail> {
    match r {
        Ok(s) => Ok(s@),
        Err(e) => Err(e@),
    }
}

/// What has been gathered, from the reader's own lists.
pub open spec fn gathered_now(
    types: Seq<char>,
    decls: Seq<char>,
    defs: Seq<char>,
    enums: Seq<Vec<char>>,
    structs: Seq<Vec<char>>,
    funcs: Seq<Vec<char>>,
) -> Gathered {
    Gathered {
        types,
        decls,
        defs,
        enums: texts(enums),
        structs: texts(structs),
        funcs: texts(funcs),
    }
}

/// Writes the client code for an interface file, or says why the file is
/// refused.
#[verifier::spinoff_prover]
#[verifier::rlimit(40)]
pub fn generate_client(contents: &str) -> (r: Result<String, IdlError>)
    ensures
        file_view(r) == client_file(contents@),
{
    let text = chars_of(contents);
    let lines = split(text.as_slice(), '\n');
    let ghost ls = texts(lines@);
    let mut write_output: Vec<char> = Vec::new();
    push_str(&mut write_output, "//gen.rs - This is generated rs file, DO NOT edit manually.\n\n");
    push_str(&mut write_output, "use serde::{Serialize, Deserialize};\n");
    push_str(&mut write_output, "use serde_json::{json};\n");
    push_str(&mut write_output, "use std::{fmt, str::FromStr};\n");
    push_str(&mut write_output, "use std::io::{self, Read, Write};\n");
    push_str(&mut write_output, "use std::net::TcpStream;\n");
    push_str(&mut write_output, "use log::{debug, info};\n");
    push_str(&mut write_output, PACK_FUNC_STR);
    push_str(&mut write_output, "\n\n");
    let ghost mut types: Seq<char> = Seq::empty();
    assert(write_output@ =~= client_header() + types);
    let mut decls: Vec<char> = Vec::new();
    let mut defs: Vec<char> = Vec::new();
    let mut enums_defined: Vec<Vec<char>> = Vec::new();
    let mut structs_defined: Vec<Vec<char>> = Vec::new();
    let mut funcs_defined: Vec<Vec<char>> = Vec::new();
    let n = lines.len();
    let mut i: usize = 0;
    assert(texts(enums_defined@) =~= Seq::<Seq<char>>::empty());
    assert(texts(structs_defined@) =~= Seq::<Seq<char>>::empty());
    assert(texts(funcs_defined@) =~= Seq::<Seq<char>>::empty());
    assert(gathered_now(types, decls@, defs@, enums_defined@, structs_defined@, funcs_defined@)
        == nothing_gathered());
    while i < n
        invariant
            n == lines@.len(),
            ls == texts(lines@),
            ls == split_on(contents@, '\n'),
            i <= n,
            write_output@ == client_header() + types,
            gathered(contents@) == gather(
                ls,
                i as int,
                gathered_now(types, decls@, defs@, enums_defined@, structs_defined@, funcs_defined@),
            ),
        decreases n - i,
    {
        let ghost g = gathered_now(
            types,
            decls@,
            defs@,
            enums_defined@,
            structs_defined@,
            funcs_defined@,
        );
        let line = trim(lines[i].as_slice());
        assert(lines@[i as int]@ == ls[i as int]);
        if is_text(line.as_slice(), "\n") || line.len() == 0 {
            i = i + 1;
            continue;
        }
        if starts_with_str(line.as_slice(), "//") {
            i = i + 1;
            continue;
        }
        if starts_with_str(line.as_slice(), "ENUM") {
            let (enum_str, new_i) = match consume_enum(&lines, i, &mut enums_defined) {
                Ok(x) => x,
                Err(err) => return Err(err),
            };
            proof {
                lemma_enum_block_end(ls, i as int, g.enums);
            }
            push_chars(&mut write_output, enum_str.as_slice());
            proof {
                types = types + enum_str@;
            }
            i = new_i;
        } else if starts_with_str(line.as_slice(), "STRUCT") {
            let (struct_str, new_i) = match consume_struct(&lines, i, &mut structs_defined) {
                Ok(x) => x,
                Err(err) => return Err(err),
            };
            proof {
                lemma_struct_block_end(ls, i as int, g.structs);
            }
            push_chars(&mut write_output, struct_str.as_slice());
            proof {
                types = types + struct_str@;
            }
            i = new_i;
        } else if starts_with_str(line.as_slice(), "FUNCTION") {
            let (func_decl, func_str, new_i) = match consume_function_client(
                &lines,
                i,
                &mut funcs_defined,
            ) {
                Ok(x) => x,
                Err(err) => return Err(err),
            };
            proof {
                lemma_function_block_end(ls, i as int, g.funcs);
            }
            push_chars(&mut decls, func_decl.as_slice());
            push_chars(&mut defs, func_str.as_slice());
            i = new_i;
        } else {
            return Err(IdlError::Unsupported(string_from(line.as_slice())));
        }
        assert(write_output@ =~= client_header() + types);
        i = i + 1;
    }
    let ghost g = gathered_now(types, decls@, defs@, enums_defined@, structs_defined@, funcs_defined@);
    push_str(&mut write_output, "pub trait RpcFunction {\n");
    push_chars(&mut write_output, decls.as_slice());
    push_str(&mut write_output, "}\n");
    push_str(&mut write_output, "impl RpcFunction for () {\n");
    push_chars(&mut write_output, defs.as_slice());
    push_str(&mut write_output, "}\n\n");
    push_str(&mut write_output, DUMMY_CLIENT_MAIN);
    assert(write_output@ =~= client_header() + g.types + client_functions(g));
    Ok(string_from(write_output.as_slice()))
}


/// Writes the server code for an interface file, or says why the file is
/// refused. Function blocks are read and checked; the server code declares
/// no functions for them.
#[verifier::spinoff_prover]
#[verifier::rlimit(40)]
pub fn generate_server(contents: &str) -> (r: Result<String, IdlError>)
    ensures
        file_view(r) == server_file(contents@),
{
    let text = chars_of(contents);
    let lines = split(text.as_slice(), '\n');
    let ghost ls = texts(lines@);
    let mut write_output: Vec<char> = Vec::new();
    push_str(&mut write_output, "//gen.rs - This is generated rs file, DO NOT edit manually.\n\n");
    push_str(&mut write_output, "use serde::{Serialize, Deserialize};\n");
    push_str(&mut write_output, "use std::io::{self, Read};\n");
    push_str(&mut write_output, "use std::net::{TcpListener, TcpStream};\n");
    push_str(&mut write_output, "use std::collections::HashMap;\n");
    push_str(&mut write_output, "use log::info;\n");
    push_str(&mut write_output, UNPACK_FUNC_STR);
    push_str(&mut write_output, "\n\n");
    let ghost mut types: Seq<char> = Seq::empty();
    let ghost mut decls: Seq<char> = Seq::empty();
    let ghost mut defs: Seq<char> = Seq::empty();
    assert(write_output@ =~= server_header() + types);
    let mut enums_defined: Vec<Vec<char>> = Vec::new();
    let mut structs_defined: Vec<Vec<char>> = Vec::new();
    let mut funcs_defined: Vec<Vec<char>> = Vec::new();
    let n = lines.len();
    let mut i: usize = 0;
    assert(texts(enums_defined@) =~= Seq::<Seq<char>>::empty());
    assert(texts(structs_defined@) =~= Seq::<Seq<char>>::empty());
    assert(texts(funcs_defined@) =~= Seq::<Seq<char>>::empty());
    assert(gathered_now(types, decls, defs, enums_defined@, structs_defined@, funcs_defined@)
        == nothing_gathered());
    while i < n
        invariant
            n == lines@.len(),
            ls == texts(lines@),
            ls == split_on(contents@, '\n'),
            i <= n,
            write_output@ == server_header() + types,
            gathered(contents@) == gather(
                ls,
                i as int,
                gathered_now(types, decls, defs, enums_defined@, structs_defined@, funcs_defined@),
            ),
        decreases n - i,
    {
        let ghost g = gathered_now(
            types,
            decls,
            defs,
            enums_defined@,
            structs_defined@,
            funcs_defined@,
        );
        let line = trim(lines[i].as_slice());
        assert(lines@[i as int]@ == ls[i as int]);
        if is_text(line.as_slice(), "\n") || line.len() == 0 {
            i = i + 1;
            continue;
        }
        if starts_with_str(line.as_slice(), "//") {
            i = i + 1;
            continue;
        }
        if starts_with_str(line.as_slice(), "ENUM") {
            let (enum_str, new_i) = match consume_enum(&lines, i, &mut enums_defined) {
                Ok(x) => x,
                Err(err) => return Err(err),
            };
            proof {
                lemma_enum_block_end(ls, i as int, g.enums);
            }
            push_chars(&mut write_output, enum_str.as_slice());
            proof {
                types = types + enum_str@;
            }
            i = new_i;
        } else if starts_with_str(line.as_slice(), "STRUCT") {
            let (struct_str, new_i) = match consume_struct(&lines, i, &mut structs_defined) {
                Ok(x) => x,
                Err(err) => return Err(err),
            };
            proof {
                lemma_struct_block_end(ls, i as int, g.structs);
            }
            push_chars(&mut write_output, struct_str.as_slice());
            proof {
                types = types + struct_str@;
            }
            i = new_i;
        } else if starts_with_str(line.as_slice(), "FUNCTION") {
            let (_func_str, new_i) = match consume_function_server(&lines, i, &mut funcs_defined) {
                Ok(x) => x,
                Err(err) => return Err(err),
            };
            proof {
                lemma_function_block_end(ls, i as int, g.funcs);
                let f = function_block(ls, i as int, g.funcs)->Ok_0;
                decls = decls + client_decl(f);
                defs = defs + client_def(f);
            }
            i = new_i;
        } else {
            return Err(IdlError::Unsupported(string_from(line.as_slice())));
        }
        assert(write_output@ =~= server_header() + types);
        i = i + 1;
    }
    let ghost g = gathered_now(types, decls, defs, enums_defined@, structs_defined@, funcs_defined@);
    push_str(&mut write_output, DUMMY_SERVER_MAIN);
    assert(write_output@ =~= server_text(g));
    Ok(string_from(write_output.as_slice()))
}

/// The client code for an interface file that is not refused.
pub fn parse_client(contents: &str) -> (r: String)
    requires
        client_file(contents@) is Ok,
    ensures
        client_file(contents@) == Ok::<Seq<char>, Fail>(r@),
{
    match generate_client(contents) {
        Ok(s) => s,
        Err(_) => {
            assert(false);
            String::new()
        },
    }
}

/// The server code for an interface file that is not refused.
pub fn parse_server(contents: &str) -> (r: String)
    requires
        server_file(contents@) is Ok,
    ensures
        server_file(contents@) == Ok::<Seq<char>, Fail>(r@),
{
    match generate_server(contents) {
        Ok(s) => s,
        Err(_) => {
            assert(false);
            String::new()
        },
    }
}

/// The client and server code accept and refuse the same files, for the same
/// reason, and declare the same enums and structs.
pub proof fn lemma_client_server_agree(contents: Seq<char>)
    ensures
        client_file(contents) is Ok <==> server_file(contents) is Ok,
        client_file(contents) matches Err(e) ==> server_file(contents) == Err::<Seq<char>, Fail>(e),
        gathered(contents) matches Ok(g) ==> {
            &&& client_file(contents) == Ok::<Seq<char>, Fail>(
                client_header() + g.types + client_functions(g),
            )
            &&& server_file(contents) == Ok::<Seq<char>, Fail>(
                server_header() + g.types + DUMMY_SERVER_MAIN@,
            )
        },
{
}

/// The client and the server code for an interface file, or why it is
/// refused: once the file is found to be accepted, the client code is written,
/// then the server code.
pub fn generate(contents: &str) -> (r: Result<(String, String), IdlError>)
    ensures
        match r {
            Ok((c, s)) => client_file(contents@) == Ok::<Seq<char>, Fail>(c@) && server_file(
                contents@,
            ) == Ok::<Seq<char>, Fail>(s@),
            Err(e) => client_file(contents@) == Err::<Seq<char>, Fail>(e@),
        },
{
    proof {
        lemma_client_server_agree(contents@);
    }
    match generate_server(contents) {
        Err(e) => Err(e),
        Ok(_) => {
            let client = parse_client(contents);
            let server = parse_server(contents);
            Ok((client, server))
        },
    }
}


/// Adding a name that a duplicate-free list lacks keeps it duplicate-free.
proof fn lemma_push_fresh(s: Seq<Seq<char>>, x: Seq<char>)
    requires
        s.no_duplicates(),
        !s.contains(x),
    ensures
        s.push(x).no_duplicates(),
{
    let t = s.push(x);
    assert forall|a: int, b: int| 0 <= a < t.len() && 0 <= b < t.len() && a != b implies t[a]
        != t[b] by {
        if a < s.len() && b < s.len() {
            assert(t[a] == s[a] && t[b] == s[b]);
        } else if a < s.len() {
            assert(t[a] == s[a]);
        } else if b < s.len() {
            assert(t[b] == s[b]);
        }
    }
}

/// Reading on from line `i` keeps the lists of defined names duplicate-free.
proof fn lemma_gather_distinct(lines: Seq<Seq<char>>, i: int, g: Gathered)
    requires
        g.enums.no_duplicates(),
        g.structs.no_duplicates(),
        g.funcs.no_duplicates(),
    ensures
        gather(lines, i, g) matches Ok(h) ==> {
            &&& h.enums.no_duplicates()
            &&& h.structs.no_duplicates()
            &&& h.funcs.no_duplicates()
        },
    decreases lines.len() - i,
{
    if 0 <= i < lines.len() {
        let line = trimmed(lines[i]);
        if line == "\n"@ || line.len() == 0 || "//"@.is_prefix_of(line) {
            lemma_gather_distinct(lines, i + 1, g);
        } else if "ENUM"@.is_prefix_of(line) {
            if let Ok((name, text, j)) = enum_block(lines, i, g.enums) {
                lemma_enum_block_end(lines, i, g.enums);
                lemma_push_fresh(g.enums, name);
                lemma_gather_distinct(
                    lines,
                    j + 1,
                    Gathered {
                        types: g.types + text,
                        decls: g.decls,
                        defs: g.defs,
                        enums: g.enums.push(name),
                        structs: g.structs,
                        funcs: g.funcs,
                    },
                );
            }
        } else if "STRUCT"@.is_prefix_of(line) {
            if let Ok((name, text, j)) = struct_block(lines, i, g.structs) {
                lemma_struct_block_end(lines, i, g.structs);
                lemma_push_fresh(g.structs, name);
                lemma_gather_distinct(
                    lines,
                    j + 1,
                    Gathered {
                        types: g.types + text,
                        decls: g.decls,
                        defs: g.defs,
                        enums: g.enums,
                        structs: g.structs.push(name),
                        funcs: g.funcs,
                    },
                );
            }
        } else if "FUNCTION"@.is_prefix_of(line) {
            if let Ok(f) = function_block(lines, i, g.funcs) {
                lemma_function_block_end(lines, i, g.funcs);
                lemma_push_fresh(g.funcs, f.name);
                lemma_gather_distinct(
                    lines,
                    f.end + 1,
                    Gathered {
                        types: g.types,
                        decls: g.decls + client_decl(f),
                        defs: g.defs + client_def(f),
                        enums: g.enums,
                        structs: g.structs,
                        funcs: g.funcs.push(f.name),
                    },
                );
            }
        }
    }
}

/// An accepted interface file defines no enum name twice, no struct name
/// twice and no function name twice.
pub proof fn lemma_defined_names_distinct(contents: Seq<char>)
    ensures
        gathered(contents) matches Ok(g) ==> {
            &&& g.enums.no_duplicates()
            &&& g.structs.no_duplicates()
            &&& g.funcs.no_duplicates()
        },
{
    lemma_gather_distinct(split_on(contents, '\n'), 0, nothing_gathered());
}


/// Splitting text joined by a newline gives the lines of both parts.
pub proof fn lemma_split_join(a: Seq<char>, b: Seq<char>)
    ensures
        split_on(a + seq!['\n'] + b, '\n') == split_on(a, '\n') + split_on(b, '\n'),
    decreases b.len(),
{
    let head = a + seq!['\n'];
    if b.len() == 0 {
        assert(head + b =~= head);
        assert(head.drop_last() =~= a);
        assert(split_on(b, '\n') =~= seq![Seq::<char>::empty()]);
        assert(split_on(a, '\n').push(Seq::<char>::empty()) =~= split_on(a, '\n') + split_on(
            b,
            '\n',
        ));
    } else {
        let b1 = b.drop_last();
        lemma_split_join(a, b1);
        lemma_split_nonempty(b1, '\n');
        let whole = head + b;
        assert(whole.drop_last() =~= head + b1);
        assert(whole.last() == b.last());
        let x = split_on(a, '\n');
        let y = split_on(b1, '\n');
        if b.last() == '\n' {
            assert((x + y).push(Seq::<char>::empty()) =~= x + y.push(Seq::<char>::empty()));
        } else {
            let z = x + y;
            assert(z.update(z.len() - 1, z.last().push(b.last())) =~= x + y.update(
                y.len() - 1,
                y.last().push(b.last()),
            ));
        }
    }
}

/// A line that the reader passes over between blocks: blank, or a `//`
/// comment.
pub open spec fn passed_over(line: Seq<char>) -> bool {
    let t = trimmed(line);
    t == "\n"@ || t.len() == 0 || "//"@.is_prefix_of(t)
}

/// Reading an enum, struct or function never looks past its end line, so
/// lines added after the file do not change what it reads.
proof fn lemma_scans_extend(lines: Seq<Seq<char>>, more: Seq<Seq<char>>, j: int)
    requires
        0 <= j,
    ensures
        forall|v: Seq<Seq<char>>|
            #![trigger enum_scan(lines, j, v)]
            enum_scan(lines, j, v) is Ok ==> enum_scan(lines + more, j, v) == enum_scan(lines, j, v),
        forall|fs: Seq<(Type, Seq<char>)>|
            #![trigger struct_scan(lines, j, fs)]
            struct_scan(lines, j, fs) is Ok ==> struct_scan(lines + more, j, fs) == struct_scan(
                lines,
                j,
                fs,
            ),
        forall|ps: Seq<(Type, Seq<char>)>, ret: Type, seen: bool|
            #![trigger func_scan(lines, j, ps, ret, seen)]
            func_scan(lines, j, ps, ret, seen) is Ok ==> func_scan(lines + more, j, ps, ret, seen)
                == func_scan(lines, j, ps, ret, seen),
    decreases lines.len() - j,
{
    let all = lines + more;
    if j < lines.len() {
        lemma_scans_extend(lines, more, j + 1);
        assert(all[j] == lines[j]);
        if j + 1 < lines.len() {
            assert(all[j + 1] == lines[j + 1]);
        }
        let c = trimmed(lines[j]);
        let toks = split_on(c, ' ');
        assert forall|v: Seq<Seq<char>>| enum_scan(lines, j, v) is Ok implies enum_scan(all, j, v)
            == enum_scan(lines, j, v) by {
            let nv = v.push(leading_word(c));
            assert(enum_scan(lines, j + 1, nv) is Ok ==> enum_scan(all, j + 1, nv)
                == enum_scan(lines, j + 1, nv));
        }
        assert forall|fs: Seq<(Type, Seq<char>)>| struct_scan(lines, j, fs) is Ok implies struct_scan(
            all,
            j,
            fs,
        ) == struct_scan(lines, j, fs) by {
            if let Some(t) = type_named(toks[0]) {
                let nf = fs.push((t, toks[1]));
                assert(struct_scan(lines, j + 1, nf) is Ok ==> struct_scan(all, j + 1, nf)
                    == struct_scan(lines, j + 1, nf));
            }
        }
        assert forall|ps: Seq<(Type, Seq<char>)>, ret: Type, seen: bool|
            func_scan(lines, j, ps, ret, seen) is Ok implies func_scan(all, j, ps, ret, seen)
            == func_scan(lines, j, ps, ret, seen) by {
            if toks.len() >= 2 {
                if let Some(t) = type_named(toks[1]) {
                    let np = ps.push((t, toks[2]));
                    assert(func_scan(lines, j + 1, np, ret, true) is Ok ==> func_scan(
                        all,
                        j + 1,
                        np,
                        ret,
                        true,
                    ) == func_scan(lines, j + 1, np, ret, true));
                    assert(func_scan(lines, j + 1, ps, t, true) is Ok ==> func_scan(
                        all,
                        j + 1,
                        ps,
                        t,
                        true,
                    ) == func_scan(lines, j + 1, ps, t, true));
                }
            }
        }
    }
}

/// A block that is read from a file is read alike from the file with lines
/// added after it.
proof fn lemma_blocks_extend(lines: Seq<Seq<char>>, more: Seq<Seq<char>>, i: int, d: Seq<Seq<char>>)
    requires
        0 <= i < lines.len(),
    ensures
        enum_block(lines, i, d) is Ok ==> enum_block(lines + more, i, d) == enum_block(lines, i, d),
        struct_block(lines, i, d) is Ok ==> struct_block(lines + more, i, d) == struct_block(
            lines,
            i,
            d,
        ),
        function_block(lines, i, d) is Ok ==> function_block(lines + more, i, d) == function_block(
            lines,
            i,
            d,
        ),
{
    assert((lines + more)[i] == lines[i]);
    lemma_scans_extend(lines, more, i + 1);
    assert(named_block(lines + more, i, 4, "enum"@, d) == named_block(lines, i, 4, "enum"@, d));
    assert(named_block(lines + more, i, 6, "struct"@, d) == named_block(lines, i, 6, "struct"@, d));
    assert(named_block(lines + more, i, 8, "func"@, d) == named_block(lines, i, 8, "func"@, d));
}

/// Past the end of a file, lines that are passed over leave what was
/// gathered as it is.
proof fn lemma_gather_passed_over(lines: Seq<Seq<char>>, i: int, g: Gathered)
    requires
        0 <= i,
        forall|k: int| i <= k < lines.len() ==> passed_over(#[trigger] lines[k]),
    ensures
        gather(lines, i, g) == Ok::<Gathered, Fail>(g),
    decreases lines.len() - i,
{
    if i < lines.len() {
        assert(passed_over(lines[i]));
        lemma_gather_passed_over(lines, i + 1, g);
    }
}

/// Lines that are passed over, added after a file that is read to its end,
/// change nothing that is gathered.
proof fn lemma_gather_extend(lines: Seq<Seq<char>>, more: Seq<Seq<char>>, i: int, g: Gathered)
    requires
        0 <= i,
        forall|k: int| 0 <= k < more.len() ==> passed_over(#[trigger] more[k]),
        gather(lines, i, g) is Ok,
    ensures
        gather(lines + more, i, g) == gather(lines, i, g),
    decreases lines.len() - i,
{
    let all = lines + more;
    if i >= lines.len() {
        assert forall|k: int| i <= k < all.len() implies passed_over(#[trigger] all[k]) by {
            assert(all[k] == more[k - lines.len()]);
        }
        lemma_gather_passed_over(all, i, g);
    } else {
        assert(all[i] == lines[i]);
        lemma_blocks_extend(lines, more, i, g.enums);
        lemma_blocks_extend(lines, more, i, g.structs);
        lemma_blocks_extend(lines, more, i, g.funcs);
        let line = trimmed(lines[i]);
        if line == "\n"@ || line.len() == 0 || "//"@.is_prefix_of(line) {
            lemma_gather_extend(lines, more, i + 1, g);
        } else if "ENUM"@.is_prefix_of(line) {
            if let Ok((name, text, j)) = enum_block(lines, i, g.enums) {
                lemma_enum_block_end(lines, i, g.enums);
                lemma_gather_extend(
                    lines,
                    more,
                    j + 1,
                    Gathered {
                        types: g.types + text,
                        decls: g.decls,
                        defs: g.defs,
                        enums: g.enums.push(name),
                        structs: g.structs,
                        funcs: g.funcs,
                    },
                );
            }
        } else if "STRUCT"@.is_prefix_of(line) {
            if let Ok((name, text, j)) = struct_block(lines, i, g.structs) {
                lemma_struct_block_end(lines, i, g.structs);
                lemma_gather_extend(
                    lines,
                    more,
                    j + 1,
                    Gathered {
                        types: g.types + text,
                        decls: g.decls,
                        defs: g.defs,
                        enums: g.enums,
                        structs: g.structs.push(name),
                        funcs: g.funcs,
                    },
                );
            }
        } else if "FUNCTION"@.is_prefix_of(line) {
            if let Ok(f) = function_block(lines, i, g.funcs) {
                lemma_function_block_end(lines, i, g.funcs);
                lemma_gather_extend(
                    lines,
                    more,
                    f.end + 1,
                    Gathered {
                        types: g.types,
                        decls: g.decls + client_decl(f),
                        defs: g.defs + client_def(f),
                        enums: g.enums,
                        structs: g.structs,
                        funcs: g.funcs.push(f.name),
                    },
                );
            }
        }
    }
}

/// Blank lines and `//` comment lines added after an accepted interface file
/// change neither the client code nor the server code written for it.
pub proof fn lemma_trailing_comments_change_nothing(contents: Seq<char>, extra: Seq<char>)
    requires
        forall|k: int|
            0 <= k < split_on(extra, '\n').len() ==> passed_over(#[trigger] split_on(extra, '\n')[k]),
        gathered(contents) is Ok,
    ensures
        gathered(contents + seq!['\n'] + extra) == gathered(contents),
        client_file(contents + seq!['\n'] + extra) == client_file(contents),
        server_file(contents + seq!['\n'] + extra) == server_file(contents),
{
    lemma_split_join(contents, extra);
    lemma_gather_extend(
        split_on(contents, '\n'),
        split_on(extra, '\n'),
        0,
        nothing_gathered(),
    );
}

/// A result whose line index is moved on by `p`.
pub open spec fn moved<A>(r: Result<(A, int), Fail>, p: int) -> Result<(A, int), Fail> {
    match r {
        Ok((a, j)) => Ok((a, j + p)),
        Err(e) => Err(e),
    }
}

/// A block's result whose end line is moved on by `p`.
pub open spec fn block_moved(r: Result<(Seq<char>, Seq<char>, int), Fail>, p: int) -> Result<
    (Seq<char>, Seq<char>, int),
    Fail,
> {
    match r {
        Ok((n, t, j)) => Ok((n, t, j + p)),
        Err(e) => Err(e),
    }
}

/// A function's result whose end line is moved on by `p`.
pub open spec fn function_moved(r: Result<FunctionSig, Fail>, p: int) -> Result<FunctionSig, Fail> {
    match r {
        Ok(f) => Ok(FunctionSig { end: f.end + p, ..f }),
        Err(e) => Err(e),
    }
}

/// Lines put before the lines that a scan reads only move where it ends.
proof fn lemma_enum_scan_shift(pre: Seq<Seq<char>>, lines: Seq<Seq<char>>, j: int, v: Seq<Seq<char>>)
    requires
        0 <= j,
    ensures
        enum_scan(pre + lines, j + pre.len(), v) == moved(enum_scan(lines, j, v), pre.len() as int),
    decreases lines.len() - j,
{
    if j < lines.len() {
        assert((pre + lines)[j + pre.len()] == lines[j]);
        lemma_enum_scan_shift(pre, lines, j + 1, v.push(leading_word(trimmed(lines[j]))));
    }
}

proof fn lemma_struct_scan_shift(
    pre: Seq<Seq<char>>,
    lines: Seq<Seq<char>>,
    j: int,
    fs: Seq<(Type, Seq<char>)>,
)
    requires
        0 <= j,
    ensures
        struct_scan(pre + lines, j + pre.len(), fs) == moved(struct_scan(lines, j, fs), pre.len() as int),
    decreases lines.len() - j,
{
    if j < lines.len() {
        assert((pre + lines)[j + pre.len()] == lines[j]);
        let toks = split_on(trimmed(lines[j]), ' ');
        if let Some(t) = type_named(toks[0]) {
            lemma_struct_scan_shift(pre, lines, j + 1, fs.push((t, toks[1])));
        }
    }
}

proof fn lemma_func_scan_shift(
    pre: Seq<Seq<char>>,
    lines: Seq<Seq<char>>,
    j: int,
    ps: Seq<(Type, Seq<char>)>,
    ret: Type,
    seen: bool,
)
    requires
        0 <= j,
    ensures
        func_scan(pre + lines, j + pre.len(), ps, ret, seen) == match func_scan(lines, j, ps, ret, seen) {
            Ok((a, b, k)) => Ok((a, b, k + pre.len())),
            Err(e) => Err(e),
        },
    decreases lines.len() - j,
{
    if j < lines.len() {
        assert((pre + lines)[j + pre.len()] == lines[j]);
        if j + 1 < lines.len() {
            assert((pre + lines)[j + 1 + pre.len()] == lines[j + 1]);
        }
        let toks = split_on(trimmed(lines[j]), ' ');
        if toks.len() >= 2 {
            if let Some(t) = type_named(toks[1]) {
                lemma_func_scan_shift(pre, lines, j + 1, ps.push((t, toks[2])), ret, true);
                lemma_func_scan_shift(pre, lines, j + 1, ps, t, true);
            }
        }
    }
}

/// A block read after lines put before the file is read alike, its end
/// moved on by their number.
proof fn lemma_blocks_shift(pre: Seq<Seq<char>>, lines: Seq<Seq<char>>, i: int, d: Seq<Seq<char>>)
    requires
        0 <= i < lines.len(),
    ensures
        enum_block(pre + lines, i + pre.len(), d) == block_moved(enum_block(lines, i, d), pre.len() as int),
        struct_block(pre + lines, i + pre.len(), d) == block_moved(
            struct_block(lines, i, d),
            pre.len() as int,
        ),
        function_block(pre + lines, i + pre.len(), d) == function_moved(
            function_block(lines, i, d),
            pre.len() as int,
        ),
{
    let p = pre.len() as int;
    assert((pre + lines)[i + p] == lines[i]);
    lemma_enum_scan_shift(pre, lines, i + 1, Seq::empty());
    lemma_struct_scan_shift(pre, lines, i + 1, Seq::empty());
    lemma_func_scan_shift(pre, lines, i + 1, Seq::empty(), Type::EMPTY, false);
    assert(i + 1 + p == i + p + 1);
}

/// Reading from line `i` of a file reads alike from line `i + pre.len()` of
/// the file with the lines `pre` put before it.
#[verifier::spinoff_prover]
#[verifier::rlimit(60)]
proof fn lemma_gather_shift(pre: Seq<Seq<char>>, lines: Seq<Seq<char>>, i: int, g: Gathered)
    requires
        0 <= i,
    ensures
        gather(pre + lines, i + pre.len(), g) == gather(lines, i, g),
    decreases lines.len() - i,
{
    let p = pre.len() as int;
    let all = pre + lines;
    if i < lines.len() {
        assert(all[i + p] == lines[i]);
        lemma_blocks_shift(pre, lines, i, g.enums);
        lemma_blocks_shift(pre, lines, i, g.structs);
        lemma_blocks_shift(pre, lines, i, g.funcs);
        let line = trimmed(lines[i]);
        if line == "\n"@ || line.len() == 0 || "//"@.is_prefix_of(line) {
            lemma_gather_shift(pre, lines, i + 1, g);
        } else if "ENUM"@.is_prefix_of(line) {
            if let Ok((name, text, j)) = enum_block(lines, i, g.enums) {
                lemma_enum_block_end(lines, i, g.enums);
                lemma_gather_shift(
                    pre,
                    lines,
                    j + 1,
                    Gathered {
                        types: g.types + text,
                        decls: g.decls,
                        defs: g.defs,
                        enums: g.enums.push(name),
                        structs: g.structs,
                        funcs: g.funcs,
                    },
                );
            }
        } else if "STRUCT"@.is_prefix_of(line) {
            if let Ok((name, text, j)) = struct_block(lines, i, g.structs) {
                lemma_struct_block_end(lines, i, g.structs);
                lemma_gather_shift(
                    pre,
                    lines,
                    j + 1,
                    Gathered {
                        types: g.types + text,
                        decls: g.decls,
                        defs: g.defs,
                        enums: g.enums,
                        structs: g.structs.push(name),
                        funcs: g.funcs,
                    },
                );
            }
        } else if "FUNCTION"@.is_prefix_of(line) {
            if let Ok(f) = function_block(lines, i, g.funcs) {
                lemma_function_block_end(lines, i, g.funcs);
                lemma_gather_shift(pre, lines, f.end + 1, add_function(g, f));
            }
        }
    }
}

/// Lines that are passed over, from line `k` to line `p`, are skipped.
proof fn lemma_gather_skip(lines: Seq<Seq<char>>, k: int, p: int, g: Gathered)
    requires
        0 <= k <= p <= lines.len(),
        forall|m: int| k <= m < p ==> passed_over(#[trigger] lines[m]),
    ensures
        gather(lines, k, g) == gather(lines, p, g),
    decreases p - k,
{
    if k < p {
        assert(passed_over(lines[k]));
        lemma_gather_skip(lines, k + 1, p, g);
    }
}

/// Blank lines and `//` comment lines put before an interface file change
/// neither what is read from it, nor the client code, nor the server code,
/// nor why it is refused.
pub proof fn lemma_leading_comments_change_nothing(extra: Seq<char>, contents: Seq<char>)
    requires
        forall|k: int|
            0 <= k < split_on(extra, '\n').len() ==> passed_over(#[trigger] split_on(extra, '\n')[k]),
    ensures
        gathered(extra + seq!['\n'] + contents) == gathered(contents),
        client_file(extra + seq!['\n'] + contents) == client_file(contents),
        server_file(extra + seq!['\n'] + contents) == server_file(contents),
{
    let e = split_on(extra, '\n');
    let c = split_on(contents, '\n');
    lemma_split_join(extra, contents);
    assert forall|m: int| 0 <= m < e.len() implies passed_over(#[trigger] (e + c)[m]) by {
        assert((e + c)[m] == e[m]);
    }
    lemma_gather_skip(e + c, 0, e.len() as int, nothing_gathered());
    lemma_gather_shift(e, c, 0, nothing_gathered());
}

/// What a function block adds to what has been gathered: its declaration
/// and definition in the client, and its name.
pub open spec fn add_function(g: Gathered, f: FunctionSig) -> Gathered {
    Gathered {
        types: g.types,
        decls: g.decls + client_decl(f),
        defs: g.defs + client_def(f),
        enums: g.enums,
        structs: g.structs,
        funcs: g.funcs.push(f.name),
    }
}

/// Reading a file that is read to its end, then more lines, is reading the
/// more lines after what the file gave.
proof fn lemma_gather_concat(lines: Seq<Seq<char>>, more: Seq<Seq<char>>, i: int, g: Gathered)
    requires
        0 <= i <= lines.len(),
        gather(lines, i, g) is Ok,
    ensures
        gather(lines + more, i, g) == gather(more, 0, gather(lines, i, g)->Ok_0),
    decreases lines.len() - i,
{
    let all = lines + more;
    if i == lines.len() {
        lemma_gather_shift(lines, more, 0, g);
    } else {
        assert(all[i] == lines[i]);
        lemma_blocks_extend(lines, more, i, g.enums);
        lemma_blocks_extend(lines, more, i, g.structs);
        lemma_blocks_extend(lines, more, i, g.funcs);
        let line = trimmed(lines[i]);
        if line == "\n"@ || line.len() == 0 || "//"@.is_prefix_of(line) {
            lemma_gather_concat(lines, more, i + 1, g);
        } else if "ENUM"@.is_prefix_of(line) {
            if let Ok((name, text, j)) = enum_block(lines, i, g.enums) {
                lemma_enum_block_end(lines, i, g.enums);
                lemma_gather_concat(
                    lines,
                    more,
                    j + 1,
                    Gathered {
                        types: g.types + text,
                        decls: g.decls,
                        defs: g.defs,
                        enums: g.enums.push(name),
                        structs: g.structs,
                        funcs: g.funcs,
                    },
                );
            }
        } else if "STRUCT"@.is_prefix_of(line) {
            if let Ok((name, text, j)) = struct_block(lines, i, g.structs) {
                lemma_struct_block_end(lines, i, g.structs);
                lemma_gather_concat(
                    lines,
                    more,
                    j + 1,
                    Gathered {
                        types: g.types + text,
                        decls: g.decls,
                        defs: g.defs,
                        enums: g.enums,
                        structs: g.structs.push(name),
                        funcs: g.funcs,
                    },
                );
            }
        } else if "FUNCTION"@.is_prefix_of(line) {
            if let Ok(f) = function_block(lines, i, g.funcs) {
                lemma_function_block_end(lines, i, g.funcs);
                lemma_gather_concat(lines, more, f.end + 1, add_function(g, f));
            }
        }
    }
}

/// A `FUNCTION` block with a new name, accepted and added after an accepted
/// interface file, leaves the server code as it is; the client code gains
/// the function's declaration and definition.
pub proof fn lemma_new_function_changes_no_server_code(contents: Seq<char>, block: Seq<char>)
    requires
        gathered(contents) is Ok,
        "FUNCTION"@.is_prefix_of(trimmed(split_on(block, '\n')[0])),
        function_block(split_on(block, '\n'), 0, gathered(contents)->Ok_0.funcs) matches Ok(f)
            && f.end == split_on(block, '\n').len() - 1,
    ensures
        gathered(contents + seq!['\n'] + block) == Ok::<Gathered, Fail>(
            add_function(
                gathered(contents)->Ok_0,
                function_block(split_on(block, '\n'), 0, gathered(contents)->Ok_0.funcs)->Ok_0,
            ),
        ),
        server_file(contents + seq!['\n'] + block) == server_file(contents),
{
    let c = split_on(contents, '\n');
    let b = split_on(block, '\n');
    let g = gathered(contents)->Ok_0;
    let f = function_block(b, 0, g.funcs)->Ok_0;
    lemma_split_join(contents, block);
    lemma_split_nonempty(block, '\n');
    lemma_gather_concat(c, b, 0, nothing_gathered());
    reveal_strlit("FUNCTION");
    reveal_strlit("ENUM");
    reveal_strlit("STRUCT");
    reveal_strlit("//");
    reveal_strlit("\n");
    let line = trimmed(b[0]);
    assert("FUNCTION"@[0] == line[0]);
    assert(line[0] == 'F');
    assert(!"ENUM"@.is_prefix_of(line)) by {
        if "ENUM"@.is_prefix_of(line) {
            assert("ENUM"@[0] == line[0]);
        }
    }
    assert(!"STRUCT"@.is_prefix_of(line)) by {
        if "STRUCT"@.is_prefix_of(line) {
            assert("STRUCT"@[0] == line[0]);
        }
    }
    assert(!"//"@.is_prefix_of(line)) by {
        if "//"@.is_prefix_of(line) {
            assert("//"@[0] == line[0]);
        }
    }
    assert(line != "\n"@) by {
        if line == "\n"@ {
            assert("\n"@[0] == line[0]);
        }
    }
    assert(gather(b, f.end + 1, add_function(g, f)) == Ok::<Gathered, Fail>(add_function(g, f)));
}

/// What is gathered only grows: `a + t` before `h` means `a` before `h`.
proof fn lemma_prefix_of_longer(a: Seq<char>, t: Seq<char>, h: Seq<char>)
    requires
        (a + t).is_prefix_of(h),
    ensures
        a.is_prefix_of(h),
{
    assert(h.subrange(0, a.len() as int) =~= (a + t).subrange(0, a.len() as int));
}

/// Reading on from line `i` only appends code: the enums and structs, the
/// client declarations and the client definitions gathered before are kept
/// at the start of what is gathered after.
pub proof fn lemma_gather_grows(lines: Seq<Seq<char>>, i: int, g: Gathered)
    ensures
        gather(lines, i, g) matches Ok(h) ==> {
            &&& g.types.is_prefix_of(h.types)
            &&& g.decls.is_prefix_of(h.decls)
            &&& g.defs.is_prefix_of(h.defs)
        },
    decreases lines.len() - i,
{
    if 0 <= i < lines.len() {
        let line = trimmed(lines[i]);
        if line == "\n"@ || line.len() == 0 || "//"@.is_prefix_of(line) {
            lemma_gather_grows(lines, i + 1, g);
        } else if "ENUM"@.is_prefix_of(line) {
            if let Ok((name, text, j)) = enum_block(lines, i, g.enums) {
                lemma_enum_block_end(lines, i, g.enums);
                let g2 = Gathered {
                    types: g.types + text,
                    decls: g.decls,
                    defs: g.defs,
                    enums: g.enums.push(name),
                    structs: g.structs,
                    funcs: g.funcs,
                };
                lemma_gather_grows(lines, j + 1, g2);
                if let Ok(h) = gather(lines, j + 1, g2) {
                    lemma_prefix_of_longer(g.types, text, h.types);
                }
            }
        } else if "STRUCT"@.is_prefix_of(line) {
            if let Ok((name, text, j)) = struct_block(lines, i, g.structs) {
                lemma_struct_block_end(lines, i, g.structs);
                let g2 = Gathered {
                    types: g.types + text,
                    decls: g.decls,
                    defs: g.defs,
                    enums: g.enums,
                    structs: g.structs.push(name),
                    funcs: g.funcs,
                };
                lemma_gather_grows(lines, j + 1, g2);
                if let Ok(h) = gather(lines, j + 1, g2) {
                    lemma_prefix_of_longer(g.types, text, h.types);
                }
            }
        } else if "FUNCTION"@.is_prefix_of(line) {
            if let Ok(f) = function_block(lines, i, g.funcs) {
                lemma_function_block_end(lines, i, g.funcs);
                let g2 = add_function(g, f);
                lemma_gather_grows(lines, f.end + 1, g2);
                if let Ok(h) = gather(lines, f.end + 1, g2) {
                    lemma_prefix_of_longer(g.decls, client_decl(f), h.decls);
                    lemma_prefix_of_longer(g.defs, client_def(f), h.defs);
                }
            }
        }
    }
}

/// Every block that is read contributes its code: where the reader meets an
/// accepted `ENUM` or `STRUCT` block at line `i`, what it gathers starts
/// with what was gathered before followed by that block's code, whatever was
/// defined before; where it meets an accepted `FUNCTION` block, the client
/// declarations and definitions start with the earlier ones followed by that
/// function's.
pub proof fn lemma_every_block_is_written(lines: Seq<Seq<char>>, i: int, g: Gathered)
    requires
        0 <= i < lines.len(),
        gather(lines, i, g) is Ok,
    ensures
        "ENUM"@.is_prefix_of(trimmed(lines[i])) ==> (enum_block(lines, i, g.enums) matches Ok(
            (_, text, _),
        ) ==> (g.types + text).is_prefix_of(gather(lines, i, g)->Ok_0.types)),
        "STRUCT"@.is_prefix_of(trimmed(lines[i])) ==> (struct_block(lines, i, g.structs) matches Ok(
            (_, text, _),
        ) ==> (g.types + text).is_prefix_of(gather(lines, i, g)->Ok_0.types)),
        "FUNCTION"@.is_prefix_of(trimmed(lines[i])) ==> (function_block(lines, i, g.funcs) matches Ok(
            f,
        ) ==> {
            &&& (g.decls + client_decl(f)).is_prefix_of(gather(lines, i, g)->Ok_0.decls)
            &&& (g.defs + client_def(f)).is_prefix_of(gather(lines, i, g)->Ok_0.defs)
        }),
{
    let line = trimmed(lines[i]);
    reveal_strlit("ENUM");
    reveal_strlit("STRUCT");
    reveal_strlit("FUNCTION");
    reveal_strlit("//");
    reveal_strlit("\n");
    if line.len() > 0 {
        assert(line != "\n"@ ==> true);
        if "ENUM"@.is_prefix_of(line) || "STRUCT"@.is_prefix_of(line) || "FUNCTION"@.is_prefix_of(
            line,
        ) {
            assert(line[0] == 'E' || line[0] == 'S' || line[0] == 'F') by {
                if "ENUM"@.is_prefix_of(line) {
                    assert("ENUM"@[0] == line[0]);
                } else if "STRUCT"@.is_prefix_of(line) {
                    assert("STRUCT"@[0] == line[0]);
                } else {
                    assert("FUNCTION"@[0] == line[0]);
                }
            }
            assert(!"//"@.is_prefix_of(line)) by {
                if "//"@.is_prefix_of(line) {
                    assert("//"@[0] == line[0]);
                }
            }
            assert(line != "\n"@) by {
                if line == "\n"@ {
                    assert("\n"@[0] == line[0]);
                }
            }
            if "STRUCT"@.is_prefix_of(line) {
                assert(!"ENUM"@.is_prefix_of(line)) by {
                    if "ENUM"@.is_prefix_of(line) {
                        assert("ENUM"@[0] == line[0]);
                    }
                }
            }
            if "FUNCTION"@.is_prefix_of(line) {
                assert(!"ENUM"@.is_prefix_of(line)) by {
                    if "ENUM"@.is_prefix_of(line) {
                        assert("ENUM"@[0] == line[0]);
                    }
                }
                assert(!"STRUCT"@.is_prefix_of(line)) by {
                    if "STRUCT"@.is_prefix_of(line) {
                        assert("STRUCT"@[0] == line[0]);
                    }
                }
            }
        }
    }
    if "ENUM"@.is_prefix_of(line) {
        if let Ok((name, text, j)) = enum_block(lines, i, g.enums) {
            lemma_gather_grows(
                lines,
                j + 1,
                Gathered {
                    types: g.types + text,
                    decls: g.decls,
                    defs: g.defs,
                    enums: g.enums.push(name),
                    structs: g.structs,
                    funcs: g.funcs,
                },
            );
        }
    }
    if "STRUCT"@.is_prefix_of(line) {
        if let Ok((name, text, j)) = struct_block(lines, i, g.structs) {
            lemma_gather_grows(
                lines,
                j + 1,
                Gathered {
                    types: g.types + text,
                    decls: g.decls,
                    defs: g.defs,
                    enums: g.enums,
                    structs: g.structs.push(name),
                    funcs: g.funcs,
                },
            );
        }
    }
    if "FUNCTION"@.is_prefix_of(line) {
        if let Ok(f) = function_block(lines, i, g.funcs) {
            lemma_gather_grows(lines, f.end + 1, add_function(g, f));
        }
    }
}

} // verus!
