use rrpc::codegen::blocks::{consume_enum, IdlError, Type};
use rrpc::codegen::files::{generate, generate_client, generate_server, parse_client, parse_server};
use rrpc::codegen::templates::{DUMMY_CLIENT_MAIN, DUMMY_SERVER_MAIN, PACK_FUNC_STR, UNPACK_FUNC_STR};

const CLIENT_HEAD: &str = "//gen.rs - This is generated rs file, DO NOT edit manually.\n\nuse serde::{Serialize, Deserialize};\nuse serde_json::{json};\nuse std::{fmt, str::FromStr};\nuse std::io::{self, Read, Write};\nuse std::net::TcpStream;\nuse log::{debug, info};\n";
const SERVER_HEAD: &str = "//gen.rs - This is generated rs file, DO NOT edit manually.\n\nuse serde::{Serialize, Deserialize};\nuse std::io::{self, Read};\nuse std::net::{TcpListener, TcpStream};\nuse std::collections::HashMap;\nuse log::info;\n";

fn client_file(types: &str, decls: &str, defs: &str) -> String {
    format!(
        "{}{}\n\n{}pub trait RpcFunction {{\n{}}}\nimpl RpcFunction for () {{\n{}}}\n\n{}",
        CLIENT_HEAD, PACK_FUNC_STR, types, decls, defs, DUMMY_CLIENT_MAIN
    )
}

fn server_file(types: &str) -> String {
    format!("{}{}\n\n{}{}", SERVER_HEAD, UNPACK_FUNC_STR, types, DUMMY_SERVER_MAIN)
}

fn invalid(contents: &str) -> String {
    match generate_client(contents) {
        Err(IdlError::Invalid(msg)) => msg,
        other => panic!("expected a refusal, got {:?}", other),
    }
}

const ENUM_TEXT: &str = "\n#[derive(Debug)]\nenum color {\n  red,\n  green,\n}\n";
const STRUCT_TEXT: &str = "\n#[derive(Debug)]\nstruct point {\nx: i64,\nlabel: String,\n}\n";

#[test]
fn enum_block_written_for_client_and_server() {
    let input = "ENUM color\nred\ngreen\nENDENUM\n";
    assert_eq!(generate_client(input).unwrap(), client_file(ENUM_TEXT, "", ""));
    assert_eq!(generate_server(input).unwrap(), server_file(ENUM_TEXT));
}

#[test]
fn struct_block_written() {
    let input = "  STRUCT point\nINT x\nSTRING label\nENDSTRUCT";
    // the untrimmed line is cut after six bytes: "  STRUCT point"[6..] is "CT point"
    let expected = STRUCT_TEXT.replace("struct point", "struct CT point");
    assert_eq!(parse_client(input), client_file(&expected, "", ""));
    let input = "STRUCT point\nINT x\nSTRING label\nENDSTRUCT";
    assert_eq!(parse_server(input), server_file(STRUCT_TEXT));
}

#[test]
fn function_block_written_for_client() {
    let input = "// remote functions\nFUNCTION my_func\nIN INT var1\nIN STRING name\nOUT INT\nENDFUNCTION\n";
    let decl = "\n  fn my_func (client: &Client,  var1: i64,  name: String, );\n\n";
    let def = "\n  fn my_func (client: &Client,  var1: i64,  name: String, ) -> i64 {\n    let func_name: String = String::from_str(\"my_func\").unwrap();\n    let operands = vec![( String::from_str(\"var1\").unwrap(), Operand::Int(var1) ),\n ( String::from_str(\"name\").unwrap(), Operand::Str(name) ),\n ];\n\n    let json_str = pack(func_name, operands);\n\n    client.send_async(json_str.as_str()).unwrap();\n  }\n";
    assert_eq!(generate_client(input).unwrap(), client_file("", decl, def));
    assert_eq!(generate_server(input).unwrap(), server_file(""));
}

#[test]
fn function_without_out_returns_unit() {
    let input = "FUNCTION hello\nIN INT a\nENDFUNCTION";
    let decl = "\n  fn hello (client: &Client,  a: i64, );\n\n";
    let def = "\n  fn hello (client: &Client,  a: i64, ) -> () {\n    let func_name: String = String::from_str(\"hello\").unwrap();\n    let operands = vec![( String::from_str(\"a\").unwrap(), Operand::Int(a) ),\n ];\n\n    let json_str = pack(func_name, operands);\n\n    client.send_async(json_str.as_str()).unwrap();\n  }\n";
    assert_eq!(generate_client(input).unwrap(), client_file("", decl, def));
}

#[test]
fn all_blocks_together() {
    let input = "FUNCTION f1\nOUT STRING\nENDFUNCTION\n\nENUM color\nred\ngreen\nENDENUM\nSTRUCT point\nINT x\nSTRING label\nENDSTRUCT\n";
    let (client, server) = generate(input).unwrap();
    let decl = "\n  fn f1 (client: &Client, );\n\n";
    let def = "\n  fn f1 (client: &Client, ) -> String {\n    let func_name: String = String::from_str(\"f1\").unwrap();\n    let operands = vec![];\n\n    let json_str = pack(func_name, operands);\n\n    client.send_async(json_str.as_str()).unwrap();\n  }\n";
    let types = format!("{}{}", ENUM_TEXT, STRUCT_TEXT);
    assert_eq!(client, client_file(&types, decl, def));
    assert_eq!(server, server_file(&types));
}

#[test]
fn empty_file_gives_the_frame_only() {
    assert_eq!(generate_client("").unwrap(), client_file("", "", ""));
    assert_eq!(generate_server("\n\n// nothing\n").unwrap(), server_file(""));
}

#[test]
fn enum_errors() {
    assert_eq!(invalid("ENUM a\nx\nENDENUM"), "ERROR enum name is not present");
    assert_eq!(
        invalid("ENUM color\nred\nENDENUM\nENUM color\nblue\nENDENUM"),
        "ERROR: enum color is already defined in previous enums"
    );
    assert_eq!(invalid("ENUM color\nENDENUM"), "ERROR: could not find one variant in enum");
    assert_eq!(invalid("ENUM color\nred"), "ERROR: Could not find ENDENUM");
    assert_eq!(
        invalid("ENUM color\nre-d\nENDENUM"),
        "ERROR: line re-d contains something other than alphanumeric chars"
    );
    assert_eq!(
        invalid("ENUM color\n1red\nENDENUM"),
        "ERROR: enum variant first char is not alphabetic: 1red"
    );
    assert!(matches!(generate_client("ENUM color\n\nENDENUM"), Err(IdlError::Malformed)));
}

#[test]
fn struct_errors() {
    assert_eq!(invalid("STRUCT p\nINT x\nENDSTRUCT"), "ERROR struct name is not present");
    assert_eq!(
        invalid("STRUCT point\nINT x\nFLOAT y\nENDSTRUCT"),
        "ERROR: struct parsing failed at line: FLOAT y. Data type not supported"
    );
    assert_eq!(
        invalid("STRUCT point\nINT x y\nENDSTRUCT"),
        "ERROR: struct parsing failed at line: INT x y"
    );
    assert_eq!(invalid("STRUCT point\nENDSTRUCT"), "ERROR: could not find one variant in struct");
    assert_eq!(invalid("STRUCT point\nINT x"), "ERROR: Could not find ENDSTRUCT");
    assert_eq!(
        invalid("STRUCT point\nINT x\nENDSTRUCT\nSTRUCT point\nINT y\nENDSTRUCT"),
        "ERROR: struct point is already defined in previous structs"
    );
}

#[test]
fn function_errors() {
    assert_eq!(invalid("FUNCTION f\nIN INT x\nENDFUNCTION"), "ERROR func name is not present");
    assert_eq!(
        invalid("FUNCTION f1\nIN INT\nENDFUNCTION"),
        "ERROR: func parsing failed at line: IN INT"
    );
    assert_eq!(
        invalid("FUNCTION f1\nIN FLOAT x\nENDFUNCTION"),
        "ERROR: func parsing failed at line: IN FLOAT x. Data type not supported"
    );
    assert_eq!(
        invalid("FUNCTION f1\nOUT INT\nIN INT x\nENDFUNCTION"),
        "ERROR: func parsing failed at line: IN INT x. ENDFUNCTION not at next line to OUT"
    );
    assert_eq!(
        invalid("FUNCTION f1\nRET INT\nENDFUNCTION"),
        "ERROR: func parsing failed at line: RET INT"
    );
    assert_eq!(invalid("FUNCTION f1\nENDFUNCTION"), "ERROR: could not find one variant in func");
    assert_eq!(invalid("FUNCTION f1\nIN INT x"), "ERROR: Could not find ENDFUNCTION");
    assert_eq!(
        invalid("FUNCTION f1\nIN INT x\nENDFUNCTION\nFUNCTION f1\nIN INT y\nENDFUNCTION"),
        "ERROR: func f1 is already defined in previous funcs"
    );
    assert!(matches!(generate_client("FUNCTION f1\nOUT INT"), Err(IdlError::Malformed)));
    assert!(matches!(generate_client("FUNCTION f1\nX\nENDFUNCTION"), Err(IdlError::Malformed)));
}

#[test]
fn unsupported_line_is_refused() {
    match generate_server("ENUM color\nred\nENDENUM\n  hello world  \n") {
        Err(IdlError::Unsupported(line)) => assert_eq!(line, "hello world"),
        other => panic!("expected an unsupported line, got {:?}", other),
    }
}

#[test]
fn client_and_server_refuse_alike() {
    for input in ["ENUM x\nENDENUM", "FUNCTION ab\nIN INT\nENDFUNCTION", "what", "STRUCT st\nINT a"] {
        let c = format!("{:?}", generate_client(input));
        let s = format!("{:?}", generate_server(input));
        assert_eq!(c, s);
    }
}

#[test]
fn consume_enum_records_the_name() {
    let lines: Vec<Vec<char>> = "ENUM color\nred\nENDENUM".split('\n').map(|l| l.chars().collect()).collect();
    let mut defined: Vec<Vec<char>> = Vec::new();
    let (text, end) = consume_enum(&lines, 0, &mut defined).unwrap();
    assert_eq!(text.iter().collect::<String>(), "\n#[derive(Debug)]\nenum color {\n  red,\n}\n");
    assert_eq!(end, 2);
    assert_eq!(defined, vec!["color".chars().collect::<Vec<char>>()]);
}

#[test]
fn type_names() {
    let int: Vec<char> = "INT".chars().collect();
    let string: Vec<char> = "STRING".chars().collect();
    let other: Vec<char> = "FLOAT".chars().collect();
    assert_eq!(Type::from_str(&int), Ok(Type::INT));
    assert_eq!(Type::from_str(&string), Ok(Type::STRING));
    assert_eq!(Type::from_str(&other), Err(()));
    assert_eq!(Type::INT.to_rust_type(), "i64");
    assert_eq!(Type::STRING.to_rust_type(), "String");
    assert_eq!(Type::EMPTY.to_rust_type(), "()");
}

#[test]
fn trailing_comments_change_nothing() {
    let input = "ENUM color\nred\nENDENUM\nFUNCTION my_func\nIN INT x\nENDFUNCTION";
    let longer = format!("{}\n// trailing note\n\n   \t\n//", input);
    assert_eq!(generate_client(&longer).unwrap(), generate_client(input).unwrap());
    assert_eq!(generate_server(&longer).unwrap(), generate_server(input).unwrap());
}

#[test]
fn readme_interface_file_is_accepted() {
    let input = "FUNCTION my_func\nIN INT var1\nIN INT var2\nENDFUNCTION\n\nENUM test_enum\nval1 u32 1\nval2 u32 2\nENDENUM\n\nSTRUCT structName\nINT intvar \nSTRING str\nENDSTRUCT\n";
    let client = parse_client(input);
    assert!(client.contains("\n  fn my_func (client: &Client,  var1: i64,  var2: i64, );\n\n"));
    assert!(client.contains("\n#[derive(Debug)]\nenum test_enum {\n  val1,\n  val2,\n}\n"));
    assert!(client.contains("struct structName {\nintvar: i64,\nstr: String,\n}\n"));
    let server = parse_server(input);
    assert!(server.contains("enum test_enum {\n  val1,\n  val2,\n}\n"));
}

#[test]
fn consume_enum_reads_typed_variants() {
    let lines: Vec<Vec<char>> = "ENUM test_enum\nval1 u32 1\n  val2 u32 2  \nENDENUM".split('\n').map(|l| l.chars().collect()).collect();
    let mut defined: Vec<Vec<char>> = Vec::new();
    let (text, end) = consume_enum(&lines, 0, &mut defined).unwrap();
    assert_eq!(text.iter().collect::<String>(), "\n#[derive(Debug)]\nenum test_enum {\n  val1,\n  val2,\n}\n");
    assert_eq!(end, 3);
    assert_eq!(defined, vec!["test_enum".chars().collect::<Vec<char>>()]);
}

#[test]
fn leading_comments_change_nothing() {
    let input = "ENUM color\nred\nENDENUM\nFUNCTION my_func\nIN INT x\nENDFUNCTION";
    let longer = format!("// header\n\n  \t\n{}", input);
    assert_eq!(generate_client(&longer).unwrap(), generate_client(input).unwrap());
    assert_eq!(generate_server(&longer).unwrap(), generate_server(input).unwrap());
    let bad = "ENUM color\nENDENUM";
    assert_eq!(
        format!("{:?}", generate_client(&format!("//\n{}", bad))),
        format!("{:?}", generate_client(bad))
    );
}

#[test]
fn new_function_changes_no_server_code() {
    let input = "ENUM color\nred\nENDENUM\nSTRUCT point\nINT x\nENDSTRUCT";
    let longer = format!("{}\nFUNCTION added\nIN STRING s\nOUT INT\nENDFUNCTION", input);
    assert_eq!(generate_server(&longer).unwrap(), generate_server(input).unwrap());
    assert_ne!(generate_client(&longer).unwrap(), generate_client(input).unwrap());
}
