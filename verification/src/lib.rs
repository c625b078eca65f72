//! A small ahead-of-time compiler: it translates a C-like source fragment
//! (an implicit `main` body in braces) into textual x86-64 assembly.
//!
//! The pipeline is tokenize -> parse -> frame layout -> code generation,
//! and each stage is verified against a functional model: `compile_spec`
//! fixes, for every input, whether compilation succeeds and what text it
//! yields, so equal inputs always give byte-identical output.

use vstd::prelude::*;
use vstd::string::StringExecFns;

pub mod ast;
pub mod codegen;
pub mod parser;
pub mod tokenizer;

use crate::codegen::asm_function;
use crate::codegen::Assembly;
use crate::parser::layout_offs;
use crate::parser::spec_align;
use crate::parser::spec_program;
use crate::parser::Function;
use crate::parser::Parser;
use crate::tokenizer::lex_spec;
use crate::tokenizer::Tokenizer;

verus! {


// ---------------------------------------------------------------------------
// The pipeline
// ---------------------------------------------------------------------------

/// What compiling a source text yields: the exact assembly text on
/// success, or a failure. This composes the lexical model, the parsing
/// model, the layout rule and the emission model, so it pins the whole
/// pipeline down as one function of the input.
pub open spec fn compile_spec(s: Seq<char>) -> Result<Seq<char>, ()> {
    match lex_spec(s) {
        Err(_) => Err(()),
        Ok(ts) => match spec_program(ts.reverse(), Seq::empty()) {
            Err(_) => Err(()),
            Ok((body, names)) => if 8 * names.len() + 15 > usize::MAX {
                Err(())
            } else {
                asm_function(body, layout_offs(names.len() as int), spec_align(8 * names.len() as int, 16))
            },
        },
    }
}

/// Compile one source text to assembly: tokenize, parse, lay the frame
/// out, generate. Equal inputs give byte-identical output, since the
/// result is exactly `compile_spec` of the source.
pub fn run(code: &str) -> (r: Result<String, Error>)
    ensures
        match r {
            Ok(out) => compile_spec(code@) matches Ok(t) && out@ == t,
            Err(_) => compile_spec(code@) is Err,
        },
{
    let t = Tokenizer::new(code);
    let tokens = match t.run() {
        Ok(v) => v,
        Err(e) => {
            return Err(e);
        },
    };
    let num_tokens = tokens.len();
    let mut parser = Parser::new(code, tokens);
    proof {
        assert(parser.names() =~= Seq::<Seq<char>>::empty());
        assert(parser.toks().len() == num_tokens);
    }
    let program = match parser.run() {
        Ok(p) => p,
        Err(e) => {
            return Err(e);
        },
    };
    let locals = parser.locals;
    if locals.len() > (usize::MAX - 15) / 8 {
        return Err(Error::new(String::from_str("too many locals"), None));
    }
    let ghost n = locals@.len() as int;
    let fun = Function::new(program, locals);
    proof {
        assert(fun.offs() =~= layout_offs(n));
    }
    let mut assembly = Assembly::new(&fun);
    match assembly.gen() {
        Ok(_) => {},
        Err(e) => {
            return Err(e);
        },
    }
    let out = assembly.finish();
    proof {
        assert(Seq::<char>::empty() + (compile_spec(code@)->Ok_0) =~= compile_spec(
            code@,
        )->Ok_0);
    }
    Ok(out)
}


/// Determinism: compilation is a function of the source text alone, so
/// any two successful compilations of equal sources yield byte-identical
/// assembly. Together with `run`'s contract this says two calls of `run`
/// on the same text return the same output.
pub proof fn lemma_determinism(s: Seq<char>, out1: Seq<char>, out2: Seq<char>)
    requires
        compile_spec(s) == Ok::<Seq<char>, ()>(out1),
        compile_spec(s) == Ok::<Seq<char>, ()>(out2),
    ensures
        out1 == out2,
{
}

/// The failure taxonomy is deliberately flat: every lexical, grammatical or
/// semantic mismatch aborts the pipeline with one message.
#[derive(Debug)]
pub enum ErrorKind {
    Generic(String),
}

/// A character position in the source text, used to place the caret of a
/// diagnostic.
#[derive(Debug)]
pub struct Span {
    pub pos: usize,
}

impl Span {
    pub fn new(pos: usize) -> (s: Self)
        ensures
            s.pos == pos,
    {
        Self { pos }
    }

    pub fn pos(&self) -> (p: usize)
        ensures
            p == self.pos,
    {
        self.pos
    }
}

/// A fatal compilation failure: a message, plus the source position of the
/// offending character when one is known.
#[derive(Debug)]
pub struct Error {
    pub kind: ErrorKind,
    pub span: Option<Span>,
}

/// `n` spaces, the padding that right-aligns the caret of a diagnostic.
pub open spec fn spaces(n: nat) -> Seq<char>
    decreases n,
{
    if n == 0 {
        Seq::empty()
    } else {
        spaces((n - 1) as nat) + " "@
    }
}

/// The caret line of a diagnostic: the caret is right-aligned to width `pos`.
pub open spec fn caret_line(pos: nat) -> Seq<char> {
    if pos <= 1 {
        "^"@
    } else {
        spaces((pos - 1) as nat) + "^"@
    }
}

impl Error {
    pub open spec fn spec_kind_text(&self) -> Seq<char> {
        match self.kind {
            ErrorKind::Generic(m) => "error: `"@ + m@ + "`"@,
        }
    }

    /// The rendered diagnostic text.
    pub open spec fn spec_render(&self) -> Seq<char> {
        match self.span {
            None => self.spec_kind_text(),
            Some(sp) => self.spec_kind_text() + caret_line(sp.pos as nat),
        }
    }

    pub fn new(message: String, span: Option<Span>) -> (e: Error)
        ensures
            e.kind == ErrorKind::Generic(message),
            e.span == span,
    {
        Error { kind: ErrorKind::Generic(message), span }
    }

    /// The human-readable diagnostic: the message, then a caret right-aligned
    /// to the source position when one is known.
    #[verifier::loop_isolation(false)]
    pub fn render(&self) -> (out: String)
        ensures
            out@ == self.spec_render(),
    {
        let mut out = String::new();
        match &self.kind {
            ErrorKind::Generic(m) => {
                out.append("error: `");
                out.append(m.as_str());
                out.append("`");
            }
        }
        match &self.span {
            None => {},
            Some(sp) => {
                let width = sp.pos;
                proof {
                    assert(out@ =~= self.spec_kind_text() + spaces(0));
                }
                let mut i: usize = 1;
                while i < width
                    invariant
                        1 <= i,
                        i <= width || i == 1,
                        out@ == self.spec_kind_text() + spaces((i - 1) as nat),
                    decreases width - i,
                {
                    out.append(" ");
                    proof {
                        assert(out@ =~= self.spec_kind_text() + spaces(i as nat));
                    }
                    i = i + 1;
                }
                out.append("^");
                proof {
                    assert(out@ =~= self.spec_render());
                }
            }
        }
        out
    }
}

} // verus!
