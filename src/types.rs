use vstd::prelude::*;
use crate::text::{decimal, push_decimal};
use vstd::string::StringExecFns;

verus! {

/// The type given to a declaration.
#[derive(Debug, Clone)]
pub enum Type {
    Auto,
    Undetermined { name: String },
    Number { size: usize, signed: bool },
}

/// The mathematical value of a `Type`.
pub enum TypeModel {
    Auto,
    Undetermined(Seq<char>),
    Number(nat, bool),
}

impl View for Type {
    type V = TypeModel;

    open spec fn view(&self) -> TypeModel {
        match self {
            Type::Auto => TypeModel::Auto,
            Type::Undetermined { name } => TypeModel::Undetermined(name@),
            Type::Number { size, signed } => TypeModel::Number(*size as nat, *signed),
        }
    }
}

/// How a type reads when printed.
pub open spec fn type_text(t: TypeModel) -> Seq<char> {
    match t {
        TypeModel::Auto => "auto"@,
        TypeModel::Undetermined(name) => "undetermined: "@ + name,
        TypeModel::Number(size, signed) => (if signed { "signed"@ } else { "unsigned"@ })
            + " number of size: "@ + decimal(size),
    }
}

impl Type {
    /// The printed form of this type.
    pub fn to_string(&self) -> (r: String)
        ensures
            r@ == type_text(self@),
    {
        proof {
            reveal_strlit("auto");
            reveal_strlit("undetermined: ");
            reveal_strlit("signed");
            reveal_strlit("unsigned");
            reveal_strlit(" number of size: ");
        }
        match self {
            Type::Auto => String::from_str("auto"),
            Type::Undetermined { name } => {
                let mut r = String::from_str("undetermined: ");
                r.append(name.as_str());
                r
            },
            Type::Number { size, signed } => {
                let mut r = if *signed {
                    String::from_str("signed")
                } else {
                    String::from_str("unsigned")
                };
                r.append(" number of size: ");
                push_decimal(&mut r, *size);
                r
            },
        }
    }
}

} // verus!
