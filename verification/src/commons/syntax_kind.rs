//! The kinds of syntax-tree elements that the library tells apart, and the
//! bridge from the Rust parser to plain records of a parsed tree.
use vstd::prelude::*;
use crate::commons::text::chars_eq_str;

verus! {

/// Kind of a syntax element.  Every kind that the matching, parsing and
/// transformation logic inspects has a variant; any other kind is `Other`,
/// with the parser's numeric code.
#[derive(Clone, Copy, PartialEq, Eq, Structural, Debug, Hash)]
pub enum Tag {
    TupleExpr,
    ArrayExpr,
    ParenExpr,
    PathExpr,
    ClosureExpr,
    IfExpr,
    WhileExpr,
    LoopExpr,
    ForExpr,
    ContinueExpr,
    BreakExpr,
    ReturnExpr,
    YieldExpr,
    LetExpr,
    UnderscoreExpr,
    MacroExpr,
    MatchExpr,
    RecordExpr,
    RecordExprFieldList,
    RecordExprField,
    BoxExpr,
    CallExpr,
    IndexExpr,
    MethodCallExpr,
    FieldExpr,
    AwaitExpr,
    TryExpr,
    CastExpr,
    RefExpr,
    PrefixExpr,
    RangeExpr,
    BinExpr,
    ExprStmt,
    Literal,
    NameRef,
    BlockExpr,
    ArrayType,
    DynTraitType,
    FnPtrType,
    ForType,
    ImplTraitType,
    InferType,
    MacroType,
    NeverType,
    ParenType,
    PathType,
    PtrType,
    RefType,
    SliceType,
    TupleType,
    IdentPat,
    BoxPat,
    RestPat,
    LiteralPat,
    MacroPat,
    OrPat,
    ParenPat,
    PathPat,
    WildcardPat,
    RangePat,
    RecordPat,
    RefPat,
    SlicePat,
    TuplePat,
    TupleStructPat,
    ConstBlockPat,
    Path,
    PathSegment,
    Name,
    LifetimeArg,
    Param,
    SelfParam,
    Const,
    Enum,
    ExternBlock,
    ExternCrate,
    Fn,
    Impl,
    MacroCall,
    MacroRules,
    MacroDef,
    Module,
    Static,
    Struct,
    Trait,
    TraitAlias,
    TypeAlias,
    Union,
    Use,
    Amp2,
    Pipe2,
    Bang,
    Colon2,
    LAngle,
    RAngle,
    AsKw,
    Whitespace,
    Comment,
    TokenTree,
    StmtList,
    ArgList,
    SourceFile,
    Other(u16),
}

/// The kind whose name (as the parser prints it) is `name`; `code` is the
/// parser's number for it.
pub open spec fn spec_tag_of(code: u16, name: Seq<char>) -> Tag {
    if name == "TUPLE_EXPR"@ {
        Tag::TupleExpr
    } else     if name == "ARRAY_EXPR"@ {
        Tag::ArrayExpr
    } else     if name == "PAREN_EXPR"@ {
        Tag::ParenExpr
    } else     if name == "PATH_EXPR"@ {
        Tag::PathExpr
    } else     if name == "CLOSURE_EXPR"@ {
        Tag::ClosureExpr
    } else     if name == "IF_EXPR"@ {
        Tag::IfExpr
    } else     if name == "WHILE_EXPR"@ {
        Tag::WhileExpr
    } else     if name == "LOOP_EXPR"@ {
        Tag::LoopExpr
    } else     if name == "FOR_EXPR"@ {
        Tag::ForExpr
    } else     if name == "CONTINUE_EXPR"@ {
        Tag::ContinueExpr
    } else     if name == "BREAK_EXPR"@ {
        Tag::BreakExpr
    } else     if name == "RETURN_EXPR"@ {
        Tag::ReturnExpr
    } else     if name == "YIELD_EXPR"@ {
        Tag::YieldExpr
    } else     if name == "LET_EXPR"@ {
        Tag::LetExpr
    } else     if name == "UNDERSCORE_EXPR"@ {
        Tag::UnderscoreExpr
    } else     if name == "MACRO_EXPR"@ {
        Tag::MacroExpr
    } else     if name == "MATCH_EXPR"@ {
        Tag::MatchExpr
    } else     if name == "RECORD_EXPR"@ {
        Tag::RecordExpr
    } else     if name == "RECORD_EXPR_FIELD_LIST"@ {
        Tag::RecordExprFieldList
    } else     if name == "RECORD_EXPR_FIELD"@ {
        Tag::RecordExprField
    } else     if name == "BOX_EXPR"@ {
        Tag::BoxExpr
    } else     if name == "CALL_EXPR"@ {
        Tag::CallExpr
    } else     if name == "INDEX_EXPR"@ {
        Tag::IndexExpr
    } else     if name == "METHOD_CALL_EXPR"@ {
        Tag::MethodCallExpr
    } else     if name == "FIELD_EXPR"@ {
        Tag::FieldExpr
    } else     if name == "AWAIT_EXPR"@ {
        Tag::AwaitExpr
    } else     if name == "TRY_EXPR"@ {
        Tag::TryExpr
    } else     if name == "CAST_EXPR"@ {
        Tag::CastExpr
    } else     if name == "REF_EXPR"@ {
        Tag::RefExpr
    } else     if name == "PREFIX_EXPR"@ {
        Tag::PrefixExpr
    } else     if name == "RANGE_EXPR"@ {
        Tag::RangeExpr
    } else     if name == "BIN_EXPR"@ {
        Tag::BinExpr
    } else     if name == "EXPR_STMT"@ {
        Tag::ExprStmt
    } else     if name == "LITERAL"@ {
        Tag::Literal
    } else     if name == "NAME_REF"@ {
        Tag::NameRef
    } else     if name == "BLOCK_EXPR"@ {
        Tag::BlockExpr
    } else     if name == "ARRAY_TYPE"@ {
        Tag::ArrayType
    } else     if name == "DYN_TRAIT_TYPE"@ {
        Tag::DynTraitType
    } else     if name == "FN_PTR_TYPE"@ {
        Tag::FnPtrType
    } else     if name == "FOR_TYPE"@ {
        Tag::ForType
    } else     if name == "IMPL_TRAIT_TYPE"@ {
        Tag::ImplTraitType
    } else     if name == "INFER_TYPE"@ {
        Tag::InferType
    } else     if name == "MACRO_TYPE"@ {
        Tag::MacroType
    } else     if name == "NEVER_TYPE"@ {
        Tag::NeverType
    } else     if name == "PAREN_TYPE"@ {
        Tag::ParenType
    } else     if name == "PATH_TYPE"@ {
        Tag::PathType
    } else     if name == "PTR_TYPE"@ {
        Tag::PtrType
    } else     if name == "REF_TYPE"@ {
        Tag::RefType
    } else     if name == "SLICE_TYPE"@ {
        Tag::SliceType
    } else     if name == "TUPLE_TYPE"@ {
        Tag::TupleType
    } else     if name == "IDENT_PAT"@ {
        Tag::IdentPat
    } else     if name == "BOX_PAT"@ {
        Tag::BoxPat
    } else     if name == "REST_PAT"@ {
        Tag::RestPat
    } else     if name == "LITERAL_PAT"@ {
        Tag::LiteralPat
    } else     if name == "MACRO_PAT"@ {
        Tag::MacroPat
    } else     if name == "OR_PAT"@ {
        Tag::OrPat
    } else     if name == "PAREN_PAT"@ {
        Tag::ParenPat
    } else     if name == "PATH_PAT"@ {
        Tag::PathPat
    } else     if name == "WILDCARD_PAT"@ {
        Tag::WildcardPat
    } else     if name == "RANGE_PAT"@ {
        Tag::RangePat
    } else     if name == "RECORD_PAT"@ {
        Tag::RecordPat
    } else     if name == "REF_PAT"@ {
        Tag::RefPat
    } else     if name == "SLICE_PAT"@ {
        Tag::SlicePat
    } else     if name == "TUPLE_PAT"@ {
        Tag::TuplePat
    } else     if name == "TUPLE_STRUCT_PAT"@ {
        Tag::TupleStructPat
    } else     if name == "CONST_BLOCK_PAT"@ {
        Tag::ConstBlockPat
    } else     if name == "PATH"@ {
        Tag::Path
    } else     if name == "PATH_SEGMENT"@ {
        Tag::PathSegment
    } else     if name == "NAME"@ {
        Tag::Name
    } else     if name == "LIFETIME_ARG"@ {
        Tag::LifetimeArg
    } else     if name == "PARAM"@ {
        Tag::Param
    } else     if name == "SELF_PARAM"@ {
        Tag::SelfParam
    } else     if name == "CONST"@ {
        Tag::Const
    } else     if name == "ENUM"@ {
        Tag::Enum
    } else     if name == "EXTERN_BLOCK"@ {
        Tag::ExternBlock
    } else     if name == "EXTERN_CRATE"@ {
        Tag::ExternCrate
    } else     if name == "FN"@ {
        Tag::Fn
    } else     if name == "IMPL"@ {
        Tag::Impl
    } else     if name == "MACRO_CALL"@ {
        Tag::MacroCall
    } else     if name == "MACRO_RULES"@ {
        Tag::MacroRules
    } else     if name == "MACRO_DEF"@ {
        Tag::MacroDef
    } else     if name == "MODULE"@ {
        Tag::Module
    } else     if name == "STATIC"@ {
        Tag::Static
    } else     if name == "STRUCT"@ {
        Tag::Struct
    } else     if name == "TRAIT"@ {
        Tag::Trait
    } else     if name == "TRAIT_ALIAS"@ {
        Tag::TraitAlias
    } else     if name == "TYPE_ALIAS"@ {
        Tag::TypeAlias
    } else     if name == "UNION"@ {
        Tag::Union
    } else     if name == "USE"@ {
        Tag::Use
    } else     if name == "AMP2"@ {
        Tag::Amp2
    } else     if name == "PIPE2"@ {
        Tag::Pipe2
    } else     if name == "BANG"@ {
        Tag::Bang
    } else     if name == "COLON2"@ {
        Tag::Colon2
    } else     if name == "L_ANGLE"@ {
        Tag::LAngle
    } else     if name == "R_ANGLE"@ {
        Tag::RAngle
    } else     if name == "AS_KW"@ {
        Tag::AsKw
    } else     if name == "WHITESPACE"@ {
        Tag::Whitespace
    } else     if name == "COMMENT"@ {
        Tag::Comment
    } else     if name == "TOKEN_TREE"@ {
        Tag::TokenTree
    } else     if name == "STMT_LIST"@ {
        Tag::StmtList
    } else     if name == "ARG_LIST"@ {
        Tag::ArgList
    } else     if name == "SOURCE_FILE"@ {
        Tag::SourceFile
    } else {
        Tag::Other(code)
    }
}

/// Classifies a kind from its printed name.
pub fn tag_of(code: u16, name: &Vec<char>) -> (r: Tag)
    ensures
        r == spec_tag_of(code, name@),
{
    if chars_eq_str(name, "TUPLE_EXPR") {
        Tag::TupleExpr
    } else     if chars_eq_str(name, "ARRAY_EXPR") {
        Tag::ArrayExpr
    } else     if chars_eq_str(name, "PAREN_EXPR") {
        Tag::ParenExpr
    } else     if chars_eq_str(name, "PATH_EXPR") {
        Tag::PathExpr
    } else     if chars_eq_str(name, "CLOSURE_EXPR") {
        Tag::ClosureExpr
    } else     if chars_eq_str(name, "IF_EXPR") {
        Tag::IfExpr
    } else     if chars_eq_str(name, "WHILE_EXPR") {
        Tag::WhileExpr
    } else     if chars_eq_str(name, "LOOP_EXPR") {
        Tag::LoopExpr
    } else     if chars_eq_str(name, "FOR_EXPR") {
        Tag::ForExpr
    } else     if chars_eq_str(name, "CONTINUE_EXPR") {
        Tag::ContinueExpr
    } else     if chars_eq_str(name, "BREAK_EXPR") {
        Tag::BreakExpr
    } else     if chars_eq_str(name, "RETURN_EXPR") {
        Tag::ReturnExpr
    } else     if chars_eq_str(name, "YIELD_EXPR") {
        Tag::YieldExpr
    } else     if chars_eq_str(name, "LET_EXPR") {
        Tag::LetExpr
    } else     if chars_eq_str(name, "UNDERSCORE_EXPR") {
        Tag::UnderscoreExpr
    } else     if chars_eq_str(name, "MACRO_EXPR") {
        Tag::MacroExpr
    } else     if chars_eq_str(name, "MATCH_EXPR") {
        Tag::MatchExpr
    } else     if chars_eq_str(name, "RECORD_EXPR") {
        Tag::RecordExpr
    } else     if chars_eq_str(name, "RECORD_EXPR_FIELD_LIST") {
        Tag::RecordExprFieldList
    } else     if chars_eq_str(name, "RECORD_EXPR_FIELD") {
        Tag::RecordExprField
    } else     if chars_eq_str(name, "BOX_EXPR") {
        Tag::BoxExpr
    } else     if chars_eq_str(name, "CALL_EXPR") {
        Tag::CallExpr
    } else     if chars_eq_str(name, "INDEX_EXPR") {
        Tag::IndexExpr
    } else     if chars_eq_str(name, "METHOD_CALL_EXPR") {
        Tag::MethodCallExpr
    } else     if chars_eq_str(name, "FIELD_EXPR") {
        Tag::FieldExpr
    } else     if chars_eq_str(name, "AWAIT_EXPR") {
        Tag::AwaitExpr
    } else     if chars_eq_str(name, "TRY_EXPR") {
        Tag::TryExpr
    } else     if chars_eq_str(name, "CAST_EXPR") {
        Tag::CastExpr
    } else     if chars_eq_str(name, "REF_EXPR") {
        Tag::RefExpr
    } else     if chars_eq_str(name, "PREFIX_EXPR") {
        Tag::PrefixExpr
    } else     if chars_eq_str(name, "RANGE_EXPR") {
        Tag::RangeExpr
    } else     if chars_eq_str(name, "BIN_EXPR") {
        Tag::BinExpr
    } else     if chars_eq_str(name, "EXPR_STMT") {
        Tag::ExprStmt
    } else     if chars_eq_str(name, "LITERAL") {
        Tag::Literal
    } else     if chars_eq_str(name, "NAME_REF") {
        Tag::NameRef
    } else     if chars_eq_str(name, "BLOCK_EXPR") {
        Tag::BlockExpr
    } else     if chars_eq_str(name, "ARRAY_TYPE") {
        Tag::ArrayType
    } else     if chars_eq_str(name, "DYN_TRAIT_TYPE") {
        Tag::DynTraitType
    } else     if chars_eq_str(name, "FN_PTR_TYPE") {
        Tag::FnPtrType
    } else     if chars_eq_str(name, "FOR_TYPE") {
        Tag::ForType
    } else     if chars_eq_str(name, "IMPL_TRAIT_TYPE") {
        Tag::ImplTraitType
    } else     if chars_eq_str(name, "INFER_TYPE") {
        Tag::InferType
    } else     if chars_eq_str(name, "MACRO_TYPE") {
        Tag::MacroType
    } else     if chars_eq_str(name, "NEVER_TYPE") {
        Tag::NeverType
    } else     if chars_eq_str(name, "PAREN_TYPE") {
        Tag::ParenType
    } else     if chars_eq_str(name, "PATH_TYPE") {
        Tag::PathType
    } else     if chars_eq_str(name, "PTR_TYPE") {
        Tag::PtrType
    } else     if chars_eq_str(name, "REF_TYPE") {
        Tag::RefType
    } else     if chars_eq_str(name, "SLICE_TYPE") {
        Tag::SliceType
    } else     if chars_eq_str(name, "TUPLE_TYPE") {
        Tag::TupleType
    } else     if chars_eq_str(name, "IDENT_PAT") {
        Tag::IdentPat
    } else     if chars_eq_str(name, "BOX_PAT") {
        Tag::BoxPat
    } else     if chars_eq_str(name, "REST_PAT") {
        Tag::RestPat
    } else     if chars_eq_str(name, "LITERAL_PAT") {
        Tag::LiteralPat
    } else     if chars_eq_str(name, "MACRO_PAT") {
        Tag::MacroPat
    } else     if chars_eq_str(name, "OR_PAT") {
        Tag::OrPat
    } else     if chars_eq_str(name, "PAREN_PAT") {
        Tag::ParenPat
    } else     if chars_eq_str(name, "PATH_PAT") {
        Tag::PathPat
    } else     if chars_eq_str(name, "WILDCARD_PAT") {
        Tag::WildcardPat
    } else     if chars_eq_str(name, "RANGE_PAT") {
        Tag::RangePat
    } else     if chars_eq_str(name, "RECORD_PAT") {
        Tag::RecordPat
    } else     if chars_eq_str(name, "REF_PAT") {
        Tag::RefPat
    } else     if chars_eq_str(name, "SLICE_PAT") {
        Tag::SlicePat
    } else     if chars_eq_str(name, "TUPLE_PAT") {
        Tag::TuplePat
    } else     if chars_eq_str(name, "TUPLE_STRUCT_PAT") {
        Tag::TupleStructPat
    } else     if chars_eq_str(name, "CONST_BLOCK_PAT") {
        Tag::ConstBlockPat
    } else     if chars_eq_str(name, "PATH") {
        Tag::Path
    } else     if chars_eq_str(name, "PATH_SEGMENT") {
        Tag::PathSegment
    } else     if chars_eq_str(name, "NAME") {
        Tag::Name
    } else     if chars_eq_str(name, "LIFETIME_ARG") {
        Tag::LifetimeArg
    } else     if chars_eq_str(name, "PARAM") {
        Tag::Param
    } else     if chars_eq_str(name, "SELF_PARAM") {
        Tag::SelfParam
    } else     if chars_eq_str(name, "CONST") {
        Tag::Const
    } else     if chars_eq_str(name, "ENUM") {
        Tag::Enum
    } else     if chars_eq_str(name, "EXTERN_BLOCK") {
        Tag::ExternBlock
    } else     if chars_eq_str(name, "EXTERN_CRATE") {
        Tag::ExternCrate
    } else     if chars_eq_str(name, "FN") {
        Tag::Fn
    } else     if chars_eq_str(name, "IMPL") {
        Tag::Impl
    } else     if chars_eq_str(name, "MACRO_CALL") {
        Tag::MacroCall
    } else     if chars_eq_str(name, "MACRO_RULES") {
        Tag::MacroRules
    } else     if chars_eq_str(name, "MACRO_DEF") {
        Tag::MacroDef
    } else     if chars_eq_str(name, "MODULE") {
        Tag::Module
    } else     if chars_eq_str(name, "STATIC") {
        Tag::Static
    } else     if chars_eq_str(name, "STRUCT") {
        Tag::Struct
    } else     if chars_eq_str(name, "TRAIT") {
        Tag::Trait
    } else     if chars_eq_str(name, "TRAIT_ALIAS") {
        Tag::TraitAlias
    } else     if chars_eq_str(name, "TYPE_ALIAS") {
        Tag::TypeAlias
    } else     if chars_eq_str(name, "UNION") {
        Tag::Union
    } else     if chars_eq_str(name, "USE") {
        Tag::Use
    } else     if chars_eq_str(name, "AMP2") {
        Tag::Amp2
    } else     if chars_eq_str(name, "PIPE2") {
        Tag::Pipe2
    } else     if chars_eq_str(name, "BANG") {
        Tag::Bang
    } else     if chars_eq_str(name, "COLON2") {
        Tag::Colon2
    } else     if chars_eq_str(name, "L_ANGLE") {
        Tag::LAngle
    } else     if chars_eq_str(name, "R_ANGLE") {
        Tag::RAngle
    } else     if chars_eq_str(name, "AS_KW") {
        Tag::AsKw
    } else     if chars_eq_str(name, "WHITESPACE") {
        Tag::Whitespace
    } else     if chars_eq_str(name, "COMMENT") {
        Tag::Comment
    } else     if chars_eq_str(name, "TOKEN_TREE") {
        Tag::TokenTree
    } else     if chars_eq_str(name, "STMT_LIST") {
        Tag::StmtList
    } else     if chars_eq_str(name, "ARG_LIST") {
        Tag::ArgList
    } else     if chars_eq_str(name, "SOURCE_FILE") {
        Tag::SourceFile
    } else {
        Tag::Other(code)
    }
}

} // verus!
