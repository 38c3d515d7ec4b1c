//! Component-level tests: scanner tokens, the precedence table, the line
//! table, values, errors, memory, and the disassembler.

use grim::chunk::{Chunk, Line, OpCode};
use grim::compiler::compile;
use grim::err::{CompilerError, ScannerError, TryFromValueError, VmError};
use grim::memory::Memory;
use grim::rules::{get_rule, Precedence, PrefixFn};
use grim::scanner::{is_alpha_numer, Scanner, TokenType};
use grim::value::{ObjString, StringPointer, Type, TypeId};
use grim::vm::{disassemble_chunk, Ip};

fn scan_kinds(src: &str) -> Vec<TokenType> {
    let mut scanner = Scanner::new(src.as_bytes());
    let mut kinds = Vec::new();
    while let Some(item) = scanner.next() {
        kinds.push(item.expect("no scan error expected").id);
    }
    kinds
}

#[test]
fn scanner_basic_tokens() {
    assert_eq!(
        scan_kinds("( ) { } [ ] + * / , ; ."),
        vec![
            TokenType::LeftParen,
            TokenType::RightParen,
            TokenType::LeftBrace,
            TokenType::RightBrace,
            TokenType::LeftBracket,
            TokenType::RightBracket,
            TokenType::Plus,
            TokenType::Star,
            TokenType::Slash,
            TokenType::Comma,
            TokenType::Semicolon,
            TokenType::Dot,
            TokenType::EOF,
        ]
    );
}

#[test]
fn scanner_maximal_munch() {
    assert_eq!(
        scan_kinds("= == < <= > >= ! != . .. - -:"),
        vec![
            TokenType::Equal,
            TokenType::EqualEqual,
            TokenType::Less,
            TokenType::LessEqual,
            TokenType::Greater,
            TokenType::GreaterEqual,
            TokenType::Bang,
            TokenType::BangEqual,
            TokenType::Dot,
            TokenType::DotDot,
            TokenType::Minus,
            TokenType::MinusColon,
            TokenType::EOF,
        ]
    );
}

#[test]
fn scanner_keywords_and_identifiers() {
    assert_eq!(
        scan_kinds("true false nil struct enum char int typedef bind def if print return"),
        vec![
            TokenType::True,
            TokenType::False,
            TokenType::Nil,
            TokenType::Struct,
            TokenType::Enum,
            TokenType::Char,
            TokenType::Int,
            TokenType::Typedef,
            TokenType::Bind,
            TokenType::Def,
            TokenType::If,
            TokenType::Print,
            TokenType::Return,
            TokenType::EOF,
        ]
    );
    assert_eq!(
        scan_kinds("bindx truthy x1 _a"),
        vec![
            TokenType::Identifier,
            TokenType::Identifier,
            TokenType::Identifier,
            TokenType::Identifier,
            TokenType::EOF,
        ]
    );
}

#[test]
fn scanner_literals() {
    assert_eq!(
        scan_kinds("123 \"abc\" 'x' name"),
        vec![
            TokenType::Number,
            TokenType::String,
            TokenType::CharLit,
            TokenType::Identifier,
            TokenType::EOF,
        ]
    );
}

#[test]
fn scanner_produces_eof_once() {
    let mut scanner = Scanner::new(b"1");
    assert_eq!(scanner.next().unwrap().unwrap().id, TokenType::Number);
    assert_eq!(scanner.next().unwrap().unwrap().id, TokenType::EOF);
    assert!(scanner.next().is_none());
    assert!(scanner.next().is_none());
}

#[test]
fn scanner_tracks_lines() {
    let mut scanner = Scanner::new(b"1\n2\n\n3");
    assert_eq!(scanner.next().unwrap().unwrap().line, 1);
    assert_eq!(scanner.next().unwrap().unwrap().line, 2);
    assert_eq!(scanner.next().unwrap().unwrap().line, 4);
}

#[test]
fn scanner_unterminated_character() {
    let mut scanner = Scanner::new(b"'a");
    let err = scanner.next().unwrap().unwrap_err();
    assert_eq!(String::from_utf8(err.message).unwrap(), "unterminated character.");
}

#[test]
fn token_extract_reads_the_lexeme() {
    let src = b"bind answer = 42;";
    let mut scanner = Scanner::new(src);
    let _bind = scanner.next().unwrap().unwrap();
    let name = scanner.next().unwrap().unwrap();
    assert_eq!(name.extract(src), b"answer");
}

#[test]
fn is_alpha_numer_classifies() {
    assert!(is_alpha_numer(b'a'));
    assert!(is_alpha_numer(b'Z'));
    assert!(is_alpha_numer(b'_'));
    assert!(is_alpha_numer(b'7'));
    assert!(!is_alpha_numer(b'-'));
    assert!(!is_alpha_numer(b' '));
}

#[test]
fn precedence_table_drives_operators() {
    assert_eq!(get_rule(TokenType::Plus).precedence, Precedence::Term);
    assert_eq!(get_rule(TokenType::Star).precedence, Precedence::Factor);
    assert_eq!(get_rule(TokenType::EqualEqual).precedence, Precedence::Equality);
    assert_eq!(get_rule(TokenType::Less).precedence, Precedence::Comparison);
    assert_eq!(get_rule(TokenType::Number).prefix, Some(PrefixFn::Number));
    assert_eq!(get_rule(TokenType::LeftParen).prefix, Some(PrefixFn::Grouping));
    assert_eq!(get_rule(TokenType::Semicolon).prefix, None);
    assert_eq!(get_rule(TokenType::Semicolon).infix, None);
}

#[test]
fn precedence_add_one_is_the_next_level() {
    assert_eq!(Precedence::Lowest.add_one(), Precedence::Assignment);
    assert_eq!(Precedence::Term.add_one(), Precedence::Factor);
    assert_eq!(Precedence::Primary.add_one(), Precedence::Overflow);
    assert!(Precedence::Term.rank() < Precedence::Factor.rank());
}

#[test]
fn line_table_run_length_lookup() {
    let mut line = Line::new();
    line.push(1);
    line.push(1);
    line.push(2);
    line.push(2);
    line.push(2);
    line.push(1);
    assert_eq!(line.get_line(0), 1);
    assert_eq!(line.get_line(1), 1);
    assert_eq!(line.get_line(2), 2);
    assert_eq!(line.get_line(4), 2);
    assert_eq!(line.get_line(5), 1);
    assert_eq!(line.get_line(6), 0);
}

#[test]
fn chunk_write_and_constants() {
    let mut chunk = Chunk::new();
    chunk.write(OpCode::Constant.to_byte(), 1);
    let idx = chunk.constant(Type::Number(9)).unwrap();
    chunk.write(idx, 1);
    chunk.write(OpCode::Return.to_byte(), 2);
    assert_eq!(idx, 0);
    assert_eq!(chunk.code, vec![1, 0, 0]);
    assert_eq!(chunk.lines.get_line(2), 2);
}

#[test]
fn chunk_constant_pool_caps_at_256() {
    let mut chunk = Chunk::new();
    for i in 0..256 {
        assert_eq!(chunk.constant(Type::Number(i)), Some(i as u8));
    }
    assert_eq!(chunk.constant(Type::Number(0)), None);
}

#[test]
fn opcode_round_trip() {
    for byte in 0..19u8 {
        let op = OpCode::decode(byte).unwrap();
        assert_eq!(op.to_byte(), byte);
    }
    assert!(OpCode::decode(19).is_none());
    assert!(OpCode::decode(255).is_none());
}

#[test]
fn value_falsiness() {
    assert!(Type::Nil.is_falsy());
    assert!(Type::Bool(false).is_falsy());
    assert!(!Type::Bool(true).is_falsy());
    assert!(!Type::Number(0).is_falsy());
}

#[test]
fn value_kind_compatibility() {
    assert!(Type::Number(1).types_equal(&Type::Number(2)));
    assert!(Type::Bool(true).types_equal(&Type::Bool(false)));
    assert!(Type::Nil.types_equal(&Type::Number(1)));
    assert!(!Type::Number(1).types_equal(&Type::Nil));
    assert!(!Type::Number(1).types_equal(&Type::Bool(true)));
}

#[test]
fn value_type_ids() {
    assert_eq!(Type::Number(1).type_id(), TypeId::Number);
    assert_eq!(Type::Nil.type_id(), TypeId::Nil);
}

#[test]
fn obj_string_holds_content() {
    let s = ObjString::new(b"abc");
    assert_eq!(s.len(), 3);
    assert_eq!(s.bytes().as_slice(), b"abc");
    assert_eq!(StringPointer::new(4), StringPointer(4));
}

#[test]
fn memory_set_get_remove() {
    let mut mem = Memory::new();
    let key = mem.allocate_string(b"k");
    assert_eq!(mem.get_global(key), None);
    assert_eq!(mem.set_global(key, Type::Number(1)), None);
    assert_eq!(mem.set_global(key, Type::Number(2)), Some(Type::Number(1)));
    assert_eq!(mem.get_global(key), Some(Type::Number(2)));
    mem.remove_global(key);
    assert_eq!(mem.get_global(key), None);
}

#[test]
fn memory_assign_rules() {
    let mut mem = Memory::new();
    let key = mem.allocate_string(b"k");
    assert!(mem.assign_global(key, Type::Number(1)).is_err());
    mem.set_global(key, Type::Number(1));
    assert!(mem.assign_global(key, Type::Number(5)).is_ok());
    let err = mem.assign_global(key, Type::Bool(true)).unwrap_err();
    assert_eq!(String::from_utf8(err.message).unwrap(), "Type mismatch.");
    assert_eq!(mem.get_global(key), Some(Type::Number(5)));
}

#[test]
fn memory_initialize_clears() {
    let mut mem = Memory::new();
    let key = mem.allocate_string(b"k");
    mem.set_global(key, Type::Number(1));
    mem.initialize_memory();
    let key2 = mem.allocate_string(b"k");
    assert_eq!(mem.get_global(key2), None);
}

#[test]
fn error_constructors() {
    let e: Result<(), TryFromValueError> = TryFromValueError::new("number", "bool");
    let e = e.unwrap_err();
    assert_eq!(
        String::from_utf8(e.message()).unwrap(),
        "Expected number, found bool"
    );

    let s: Result<(), ScannerError> = ScannerError::new(b"oops".to_vec(), 3);
    let s = s.unwrap_err();
    assert_eq!(s.line, 3);

    let mut c = CompilerError::new(b"bad".to_vec(), 1);
    c.set_line(9);
    assert_eq!(c.line(), 9);
    assert_eq!(String::from_utf8(c.render()).unwrap(), "[line 9] Error bad");

    let v: Result<(), VmError> = VmError::new(b"boom".to_vec());
    let v = v.unwrap_err();
    assert_eq!(v.code, 70);
}

#[test]
fn compile_failure_yields_errors_not_a_chunk() {
    let mut mem = Memory::new();
    let errs = compile(b"print ;", &mut mem).unwrap_err();
    assert!(!errs.is_empty());
    let text = String::from_utf8(errs[0].render()).unwrap();
    assert!(text.starts_with("[line 1] Error at ';':"), "{}", text);
}

#[test]
fn compiled_chunk_ends_with_return() {
    let mut mem = Memory::new();
    let chunk = compile(b"print 1;", &mut mem).unwrap();
    assert_eq!(*chunk.code.last().unwrap(), OpCode::Return.to_byte());
}

#[test]
fn disassembly_is_stable() {
    let mut mem = Memory::new();
    let chunk = compile(b"bind x = 1; print x + 2;", &mut mem).unwrap();
    let first = disassemble_chunk(&chunk, &mem);
    let second = disassemble_chunk(&chunk, &mem);
    assert_eq!(first, second);
    assert!(!first.is_empty());
}

#[test]
fn disassembly_line_format() {
    let mut mem = Memory::new();
    let chunk = compile(b"print 7;", &mut mem).unwrap();
    let text = String::from_utf8(disassemble_chunk(&chunk, &mem)).unwrap();
    let lines: Vec<&str> = text.lines().collect();
    assert_eq!(lines[0], "0000 0001 Constant    0 '7'");
    assert_eq!(lines[1], "0002 0001 Print");
    assert_eq!(lines[2], "0003 0001 Return");
}

#[test]
fn ip_cursor_reads_bytes() {
    let mut mem = Memory::new();
    let chunk = compile(b"print 7;", &mut mem).unwrap();
    let mut ip = Ip::null();
    assert_eq!(ip.pos, 0);
    let first = ip.next(&chunk).unwrap();
    assert_eq!(first, OpCode::Constant.to_byte());
    assert_eq!(ip.pos, 1);
    assert_eq!(ip.line(&chunk, 0), 1);
}
