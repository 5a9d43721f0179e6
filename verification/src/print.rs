//! Plain-text rendering of surface modules.
//!
//! Rendering is presentational: the language engine never depends on it.
//! Every surface form prints as the source syntax that parses back to it;
//! float literals print as their exact bit patterns, which is the only
//! faithful spelling available to the core.

use vstd::prelude::*;
use vstd::string::StringExecFns;

use crate::ast::CmpOp;
use crate::integer::Integer;
use crate::surface::{Alias, FloatBits, Item, Module, StructType, Term, TypeField};

verus! {

/// One decimal digit as text.
fn digit_str(d: u8) -> &'static str {
    if d == 0 {
        "0"
    } else if d == 1 {
        "1"
    } else if d == 2 {
        "2"
    } else if d == 3 {
        "3"
    } else if d == 4 {
        "4"
    } else if d == 5 {
        "5"
    } else if d == 6 {
        "6"
    } else if d == 7 {
        "7"
    } else if d == 8 {
        "8"
    } else {
        "9"
    }
}

/// An integer as decimal text; zero prints as `0`.
pub fn integer_to_string(n: &Integer) -> String {
    let mut out = String::new();
    if n.is_negative() {
        out.append("-");
    }
    let count = n.digit_count();
    if count == 0 {
        out.append("0");
        return out;
    }
    let mut i: usize = count;
    while i > 0
        invariant
            i <= n@.digits.len(),
        decreases i,
    {
        let d = if n.digits[i - 1] < 10 {
            n.digits[i - 1]
        } else {
            9
        };
        out.append(digit_str(d));
        i = i - 1;
    }
    out
}

/// An unsigned machine integer as decimal text.
fn u64_to_string(v: u64) -> String {
    integer_to_string(&Integer::from_u64(v))
}

/// The source spelling of a comparison operator.
fn cmp_op_str(op: CmpOp) -> &'static str {
    match op {
        CmpOp::Eq => "==",
        CmpOp::Ne => "!=",
        CmpOp::Lt => "<",
        CmpOp::Le => "<=",
        CmpOp::Gt => ">",
        CmpOp::Ge => ">=",
    }
}

impl Term {
    /// Renders a term as source text.
    #[verifier::loop_isolation(false)]
    pub fn doc(&self) -> String
        decreases self,
    {
        let mut out = String::new();
        match self {
            Term::Name(_, n) => {
                out.append(n.as_str());
            },
            Term::Paren(_, inner) => {
                out.append("(");
                out = out.concat(inner.doc().as_str());
                out.append(")");
            },
            Term::Ann(t, ty) => {
                out = out.concat(t.doc().as_str());
                out.append(" : ");
                out = out.concat(ty.doc().as_str());
            },
            Term::NumberLiteral(_, n) => {
                out = out.concat(integer_to_string(n).as_str());
            },
            Term::FloatLiteral(_, bits) => {
                match bits {
                    FloatBits::F32(b) => {
                        out.append("f32#");
                        out = out.concat(u64_to_string(*b as u64).as_str());
                    },
                    FloatBits::F64(b) => {
                        out.append("f64#");
                        out = out.concat(u64_to_string(*b).as_str());
                    },
                }
            },
            Term::StringLiteral(_, s) => {
                out.append("\"");
                out.append(s.as_str());
                out.append("\"");
            },
            Term::If(_, c, a, b) => {
                out.append("if ");
                out = out.concat(c.doc().as_str());
                out.append(" then ");
                out = out.concat(a.doc().as_str());
                out.append(" else ");
                out = out.concat(b.doc().as_str());
            },
            Term::App(_, f, args) => {
                out = out.concat(f.doc().as_str());
                let mut i: usize = 0;
                while i < args.len()
                    decreases args@.len() - i,
                {
                    proof {
                        assert(decreases_to!(*args => args@));
                        assert(decreases_to!(args@ => args@[i as int]));
                    }
                    out.append(" ");
                    out = out.concat(args[i].doc().as_str());
                    i = i + 1;
                }
            },
            Term::Where(_, ty, binder, pred) => {
                out.append("{ ");
                out.append(binder.1.as_str());
                out.append(" : ");
                out = out.concat(ty.doc().as_str());
                out.append(" | ");
                out = out.concat(pred.doc().as_str());
                out.append(" }");
            },
            Term::Binop(_, op, a, b) => {
                out = out.concat(a.doc().as_str());
                out.append(" ");
                out.append(cmp_op_str(*op));
                out.append(" ");
                out = out.concat(b.doc().as_str());
            },
            Term::Error(_) => {
                out.append("!");
            },
        }
        out
    }
}

/// Renders doc-comment lines, one `///` line each.
fn doc_lines(doc: &Vec<String>) -> String {
    let mut out = String::new();
    let mut i: usize = 0;
    while i < doc.len()
        decreases doc@.len() - i,
    {
        out.append("///");
        out.append(doc[i].as_str());
        out.append("\n");
        i = i + 1;
    }
    out
}

impl Alias {
    /// Renders an alias definition as source text.
    pub fn doc(&self) -> String {
        let mut out = doc_lines(&self.doc);
        out.append("alias ");
        out.append(self.name.1.as_str());
        match &self.ty {
            Some(ty) => {
                out.append(" : ");
                out = out.concat(ty.doc().as_str());
            },
            None => {},
        }
        out.append(" = ");
        out = out.concat(self.term.doc().as_str());
        out.append(";");
        out
    }
}

impl TypeField {
    /// Renders a struct field as source text.
    pub fn doc(&self) -> String {
        let mut out = doc_lines(&self.doc);
        out.append(self.name.1.as_str());
        out.append(" : ");
        out = out.concat(self.term.doc().as_str());
        out.append(",");
        out
    }
}

impl StructType {
    /// Renders a struct definition as source text.
    pub fn doc(&self) -> String {
        let mut out = doc_lines(&self.doc);
        out.append("struct ");
        out.append(self.name.1.as_str());
        out.append(" ");
        if self.fields.len() == 0 {
            out.append("{}");
            return out;
        }
        out.append("{");
        let mut i: usize = 0;
        while i < self.fields.len()
            decreases self.fields@.len() - i,
        {
            out.append("\n    ");
            out = out.concat(self.fields[i].doc().as_str());
            i = i + 1;
        }
        out.append("\n}");
        out
    }
}

impl Item {
    /// Renders an item as source text.
    pub fn doc(&self) -> String {
        match self {
            Item::Alias(alias) => alias.doc(),
            Item::Struct(struct_ty) => struct_ty.doc(),
        }
    }
}

impl Module {
    /// Renders a module as source text: the items in order, separated by
    /// blank lines, with a trailing newline.
    pub fn doc(&self) -> String {
        let mut out = String::new();
        let mut i: usize = 0;
        while i < self.items.len()
            decreases self.items@.len() - i,
        {
            if i > 0 {
                out.append("\n\n");
            }
            out = out.concat(self.items[i].doc().as_str());
            i = i + 1;
        }
        out.append("\n");
        out
    }
}

/// Renders the reference documentation of an elaborated module as Markdown:
/// a banner naming the producing package, then one section per struct item
/// with its doc lines. The package name and version come in as parameters;
/// the library holds no process-wide state.
pub fn compile_module_doc(
    module: &crate::ast::Module,
    pkg_name: &str,
    pkg_version: &str,
) -> String {
    let mut out = String::new();
    out.append("<!-- ");
    out.append(pkg_name);
    out.append(" ");
    out.append(pkg_version);
    out.append(" -->\n");
    let mut i: usize = 0;
    while i < module.items.len()
        decreases module.items@.len() - i,
    {
        match &module.items[i] {
            crate::ast::Item::Struct(s) => {
                out.append("\n## ");
                out.append(s.name.as_str());
                out.append("\n");
                if s.doc.len() > 0 {
                    out.append("\n");
                    let mut j: usize = 0;
                    while j < s.doc.len()
                        decreases s.doc@.len() - j,
                    {
                        out.append(s.doc[j].as_str());
                        out.append("\n");
                        j = j + 1;
                    }
                }
            },
            crate::ast::Item::Alias(_) => {},
        }
        i = i + 1;
    }
    out
}

} // verus!
