//! The kinds of Compact tokens and syntax nodes, by the numbers that
//! `compactp_syntax::SyntaxKind` gives them.

use vstd::prelude::*;

verus! {

pub const WHITESPACE: u16 = 0;

pub const LINE_COMMENT: u16 = 1;

pub const BLOCK_COMMENT: u16 = 2;

pub const INT_LIT: u16 = 3;

pub const HEX_LIT: u16 = 4;

pub const OCT_LIT: u16 = 5;

pub const BIN_LIT: u16 = 6;

pub const STRING_LIT: u16 = 7;

pub const TRUE_KW: u16 = 9;

pub const FALSE_KW: u16 = 10;

pub const PRAGMA_KW: u16 = 11;

pub const EXPORT_KW: u16 = 16;

pub const MODULE_KW: u16 = 17;

pub const CONTRACT_KW: u16 = 22;

pub const IF_KW: u16 = 28;

pub const ELSE_KW: u16 = 29;

pub const FOR_KW: u16 = 30;

pub const ASSERT_KW: u16 = 32;

pub const AS_KW: u16 = 33;

pub const PURE_KW: u16 = 34;

pub const SEALED_KW: u16 = 35;

pub const MAP_KW: u16 = 37;

pub const FOLD_KW: u16 = 38;

pub const DEFAULT_KW: u16 = 39;

pub const DISCLOSE_KW: u16 = 40;

pub const PAD_KW: u16 = 41;

pub const SLICE_KW: u16 = 42;

pub const UINT_KW: u16 = 45;

pub const BYTES_KW: u16 = 46;

pub const OPAQUE_KW: u16 = 47;

pub const VECTOR_KW: u16 = 48;

pub const UNSIGNED_KW: u16 = 49;

pub const INTEGER_KW: u16 = 50;

pub const EQ: u16 = 51;

pub const PLUS_EQ: u16 = 52;

pub const MINUS_EQ: u16 = 53;

pub const EQ_EQ: u16 = 54;

pub const BANG_EQ: u16 = 55;

pub const LT: u16 = 56;

pub const LT_EQ: u16 = 57;

pub const GT: u16 = 58;

pub const GT_EQ: u16 = 59;

pub const AMP_AMP: u16 = 60;

pub const PIPE_PIPE: u16 = 61;

pub const PLUS: u16 = 62;

pub const MINUS: u16 = 63;

pub const STAR: u16 = 64;

pub const BANG: u16 = 66;

pub const QUESTION: u16 = 67;

pub const FAT_ARROW: u16 = 68;

pub const DOT: u16 = 69;

pub const L_PAREN: u16 = 72;

pub const R_PAREN: u16 = 73;

pub const L_BRACE: u16 = 74;

pub const R_BRACE: u16 = 75;

pub const L_BRACKET: u16 = 76;

pub const R_BRACKET: u16 = 77;

pub const COMMA: u16 = 78;

pub const SEMICOLON: u16 = 79;

pub const COLON: u16 = 80;

pub const IDENT: u16 = 82;

pub const ERROR: u16 = 83;

pub const SOURCE_FILE: u16 = 85;

pub const INCLUDE: u16 = 87;

pub const IMPORT: u16 = 88;

pub const EXPORT_LIST: u16 = 91;

pub const MODULE_DEF: u16 = 92;

pub const LEDGER_DECL: u16 = 93;

pub const CONSTRUCTOR_DEF: u16 = 94;

pub const CIRCUIT_DEF: u16 = 95;

pub const CIRCUIT_DECL: u16 = 96;

pub const WITNESS_DECL: u16 = 97;

pub const CONTRACT_DECL: u16 = 98;

pub const STRUCT_DEF: u16 = 100;

pub const ENUM_DEF: u16 = 102;

pub const TYPE_DECL: u16 = 104;

} // verus!
