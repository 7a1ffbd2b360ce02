//! A parser for a textual presentation language describing wire-format data
//! structures (`struct`, `enum`, `select`/`case` unions and length-bounded
//! vector fields), together with a pass that extracts, per top-level
//! definition, the set of type names it references.
pub mod ast;
pub mod dependencies;
pub mod grammar;
pub mod parser;
pub mod text;

pub use ast::Case;
pub use ast::CaseBody;
pub use ast::Definition;
pub use ast::Enum;
pub use ast::EnumItem;
pub use ast::Field;
pub use ast::FieldOrSelect;
pub use ast::Range;
pub use ast::Select;
pub use ast::Struct;
pub use parser::case;
pub use parser::definition;
pub use parser::enum_def;
pub use parser::enum_item;
pub use parser::field;
pub use parser::field_or_select;
pub use parser::fixed;
pub use parser::parse;
pub use parser::select;
pub use parser::struct_def;
pub use parser::type_ref;
pub use parser::variable;
pub use parser::ParseError;
pub use text::is_field_name_character;
pub use text::is_type_character;
