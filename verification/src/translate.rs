//! The node translator: from an expression tree to MathJax text.
use vstd::prelude::*;
use crate::dictionary::{literal_of, SymbolDictionary, SymbolEntry};
use crate::node::{CallArg, MathNode};
use crate::resolve::{
    analysis_field_access, analysis_math_indent, chain_fields, field_access_text,
    generated_orderings, identifier_text,
};
use crate::text::{diagnostic, diagnostic_text, enclose, repeat_char, repeated};

verus! {

/// The prime marks of an attachment: one `'` for each prime counted.
pub open spec fn prime_marks(primes: Option<usize>) -> Seq<char> {
    match primes {
        Some(count) => repeated('\'', count as nat),
        None => Seq::empty(),
    }
}

/// `text` between `open` and `close` where there is one, nothing where not.
pub open spec fn optional_group(open: Seq<char>, text: Option<Seq<char>>, close: Seq<char>) -> Seq<
    char,
> {
    match text {
        Some(inner) => open + inner + close,
        None => Seq::empty(),
    }
}

/// An attachment: the base, its primes, then the superscript as `^{..}` and the
/// subscript as `_{..}`, each only where present.
pub open spec fn attachment_text(
    base: Seq<char>,
    primes: Option<usize>,
    top: Option<Seq<char>>,
    bottom: Option<Seq<char>>,
) -> Seq<char> {
    base + prime_marks(primes) + optional_group("^{"@, top, "}"@) + optional_group(
        "_{"@,
        bottom,
        "}"@,
    )
}

/// A fraction: `\frac{num}{denom}`.
pub open spec fn fraction_text(num: Seq<char>, denom: Seq<char>) -> Seq<char> {
    "\\frac{"@ + num + "}{"@ + denom + "}"@
}

/// A delimiter as it is written behind `\left` or `\right`: a brace is escaped.
pub open spec fn escaped_delimiter(delimiter: Seq<char>) -> Seq<char> {
    if delimiter == "{"@ {
        "\\{"@
    } else if delimiter == "}"@ {
        "\\}"@
    } else {
        delimiter
    }
}

/// A delimited group: `{\left` open body `\right` close `}`.
pub open spec fn delimited_text(open: Seq<char>, body: Seq<char>, close: Seq<char>) -> Seq<char> {
    "{\\left"@ + escaped_delimiter(open) + body + "\\right"@ + escaped_delimiter(close) + "}"@
}

/// The text that `node` is translated to against the dictionary `entries`.
pub open spec fn translation(node: MathNode, entries: Map<Seq<char>, SymbolEntry>) -> Seq<char>
    decreases node, 0int,
{
    match node {
        MathNode::Sequence(children) => translation_of_all(children@, entries),
        MathNode::FunctionCall { callee, callee_description, args, args_description } => call_text(
            *callee,
            callee_description@,
            args@,
            args_description@,
            entries,
        ),
        MathNode::StringLiteral(text) => "\\rm{"@ + text@ + "}"@,
        MathNode::TextAtom(text) => text@,
        MathNode::FieldAccess { target, field, description } => field_access_text(
            entries,
            *target,
            field@,
            description@,
            generated_orderings(chain_fields(*target, field@)),
        ),
        MathNode::Identifier(name) => identifier_text(entries, name@),
        MathNode::Shorthand(text) => text@,
        MathNode::Attachment { base, top, bottom, primes } => attachment_text(
            translation(*base, entries),
            primes,
            match top {
                Some(node) => Some(translation(*node, entries)),
                None => None,
            },
            match bottom {
                Some(node) => Some(translation(*node, entries)),
                None => None,
            },
        ),
        MathNode::Delimited { open, body, close } => delimited_text(
            translation(*open, entries),
            translation_of_all(body@, entries),
            translation(*close, entries),
        ),
        MathNode::Fraction { num, denom } => fraction_text(
            translation(*num, entries),
            translation(*denom, entries),
        ),
        MathNode::AlignPoint => "&"@,
        MathNode::Whitespace => " "@,
        MathNode::LineBreak => "\\\\"@,
        MathNode::Unsupported { description } => diagnostic("parse error"@, description@),
    }
}

/// The translations of `nodes`, one after another.
pub open spec fn translation_of_all(
    nodes: Seq<MathNode>,
    entries: Map<Seq<char>, SymbolEntry>,
) -> Seq<char>
    decreases nodes, 0int,
{
    if nodes.len() == 0 {
        Seq::empty()
    } else {
        translation_of_all(nodes.drop_last(), entries) + translation(nodes.last(), entries)
    }
}

/// One argument behind a command: a positional one in braces, any other as a
/// diagnostic in its place.
pub open spec fn argument_text(arg: CallArg, entries: Map<Seq<char>, SymbolEntry>) -> Seq<char>
    decreases arg, 0int,
{
    match arg {
        CallArg::Positional(node) => "{"@ + translation(node, entries) + "}"@,
        CallArg::Other { description } => diagnostic("unsupported argument"@, description@),
    }
}

/// The arguments behind a command, in order.
pub open spec fn arguments_text(args: Seq<CallArg>, entries: Map<Seq<char>, SymbolEntry>) -> Seq<
    char,
>
    decreases args, 0int,
{
    if args.len() == 0 {
        Seq::empty()
    } else {
        arguments_text(args.drop_last(), entries) + argument_text(args.last(), entries)
    }
}

/// The text of a function call.
///
/// A callee that is no identifier, or whose name is bound to no literal
/// command, gives a diagnostic. The command `\middle` takes exactly one
/// positional argument and is set between thin spaces; any other command is
/// followed by its arguments.
pub open spec fn call_text(
    callee: MathNode,
    callee_description: Seq<char>,
    args: Seq<CallArg>,
    args_description: Seq<char>,
    entries: Map<Seq<char>, SymbolEntry>,
) -> Seq<char>
    decreases args, 1int,
{
    match callee {
        MathNode::Identifier(name) => match literal_of(entries, name@) {
            Some(command) => if command == "\\middle"@ {
                if args.len() != 1 {
                    diagnostic("unsupported mid arguments"@, args_description)
                } else {
                    match args[0] {
                        CallArg::Positional(inner) => "\\,\\middle"@ + translation(inner, entries)
                            + "\\,"@,
                        CallArg::Other { description } => diagnostic(
                            "unsupported mid argument"@,
                            description@,
                        ),
                    }
                }
            } else {
                command + arguments_text(args, entries)
            },
            None => diagnostic("no command"@, name@),
        },
        _ => diagnostic("unsupported function call"@, callee_description),
    }
}

/// Combines a translated base with its primes, superscript and subscript.
pub fn analysis_math_attach(
    base: &str,
    primes: Option<usize>,
    top: Option<&String>,
    bottom: Option<&String>,
) -> (out: String)
    ensures
        out@ == attachment_text(
            base@,
            primes,
            match top {
                Some(text) => Some(text@),
                None => None,
            },
            match bottom {
                Some(text) => Some(text@),
                None => None,
            },
        ),
{
    let marks = match primes {
        Some(count) => repeat_char('\'', count),
        None => String::new(),
    };
    let superscript = match top {
        Some(text) => enclose("^{", text.as_str(), "}"),
        None => String::new(),
    };
    let subscript = match bottom {
        Some(text) => enclose("_{", text.as_str(), "}"),
        None => String::new(),
    };
    let mut out = String::from_str(base);
    out.append(marks.as_str());
    out.append(superscript.as_str());
    out.append(subscript.as_str());
    out
}

/// Combines a translated numerator and denominator.
pub fn analysis_math_frac(num: &str, denom: &str) -> (out: String)
    ensures
        out@ == fraction_text(num@, denom@),
{
    let mut out = String::from_str("\\frac{");
    out.append(num);
    out.append("}{");
    out.append(denom);
    out.append("}");
    out
}

/// Writes a translated delimiter as it stands behind `\left` or `\right`.
pub fn escape_delimiter(delimiter: &str) -> (out: String)
    ensures
        out@ == escaped_delimiter(delimiter@),
{
    let text = String::from_str(delimiter);
    let open_brace = String::from_str("{");
    let close_brace = String::from_str("}");
    if text == open_brace {
        String::from_str("\\{")
    } else if text == close_brace {
        String::from_str("\\}")
    } else {
        text
    }
}

/// Combines translated delimiters and body into an auto-sizing group.
pub fn analysis_math_delimited(open: &str, body: &str, close: &str) -> (out: String)
    ensures
        out@ == delimited_text(open@, body@, close@),
{
    let mut out = String::from_str("{\\left");
    let left = escape_delimiter(open);
    out.append(left.as_str());
    out.append(body);
    out.append("\\right");
    let right = escape_delimiter(close);
    out.append(right.as_str());
    out.append("}");
    out
}

/// Translates one node.
///
/// Never fails: what cannot be translated becomes a diagnostic comment in its
/// place, and the nodes around it are translated as usual.
pub fn typst_to_mathjax(node: &MathNode, dict: &SymbolDictionary) -> (out: String)
    ensures
        out@ == translation(*node, dict@),
    decreases *node,
{
    match node {
        MathNode::Sequence(children) => analysis_math(children, dict),
        MathNode::FunctionCall { callee, callee_description, args, args_description } => {
            analysis_func_call(
                callee,
                callee_description.as_str(),
                args,
                args_description.as_str(),
                dict,
            )
        },
        MathNode::StringLiteral(text) => enclose("\\rm{", text.as_str(), "}"),
        MathNode::TextAtom(text) => text.clone(),
        MathNode::FieldAccess { target, field, description } => analysis_field_access(
            target,
            field.as_str(),
            description.as_str(),
            dict,
        ),
        MathNode::Identifier(name) => analysis_math_indent(name.as_str(), dict),
        MathNode::Shorthand(text) => text.clone(),
        MathNode::Attachment { base, top, bottom, primes } => {
            let base_text = typst_to_mathjax(base, dict);
            let top_text = match top {
                Some(inner) => Some(typst_to_mathjax(inner, dict)),
                None => None,
            };
            let bottom_text = match bottom {
                Some(inner) => Some(typst_to_mathjax(inner, dict)),
                None => None,
            };
            analysis_math_attach(base_text.as_str(), *primes, top_text.as_ref(), bottom_text.as_ref())
        },
        MathNode::Delimited { open, body, close } => {
            let open_text = typst_to_mathjax(open, dict);
            let close_text = typst_to_mathjax(close, dict);
            let body_text = analysis_math(body, dict);
            analysis_math_delimited(open_text.as_str(), body_text.as_str(), close_text.as_str())
        },
        MathNode::Fraction { num, denom } => {
            let num_text = typst_to_mathjax(num, dict);
            let denom_text = typst_to_mathjax(denom, dict);
            analysis_math_frac(num_text.as_str(), denom_text.as_str())
        },
        MathNode::AlignPoint => String::from_str("&"),
        MathNode::Whitespace => String::from_str(" "),
        MathNode::LineBreak => String::from_str("\\\\"),
        MathNode::Unsupported { description } => diagnostic_text(
            "parse error",
            description.as_str(),
        ),
    }
}

/// Translates the nodes of a sequence and writes the results one after
/// another, in their order.
pub fn analysis_math(nodes: &Vec<MathNode>, dict: &SymbolDictionary) -> (out: String)
    ensures
        out@ == translation_of_all(nodes@, dict@),
    decreases *nodes,
{
    let mut out = String::new();
    let mut i: usize = 0;
    while i < nodes.len()
        invariant
            i <= nodes.len(),
            out@ == translation_of_all(nodes@.take(i as int), dict@),
        decreases nodes.len() - i,
    {
        assert(decreases_to!(*nodes => nodes[i as int]));
        let piece = typst_to_mathjax(&nodes[i], dict);
        out.append(piece.as_str());
        proof {
            let next = nodes@.take(i + 1);
            assert(next.drop_last() =~= nodes@.take(i as int));
            assert(next.last() == nodes@[i as int]);
        }
        i += 1;
    }
    assert(nodes@.take(nodes.len() as int) =~= nodes@);
    out
}

/// Translates a function call.
///
/// The callee must be an identifier bound to a literal command. The command
/// `\middle` takes exactly one positional argument and is set between thin
/// spaces; any other command is followed by its arguments, each positional
/// one in braces and any other as a diagnostic in its place.
pub fn analysis_func_call(
    callee: &MathNode,
    callee_description: &str,
    args: &Vec<CallArg>,
    args_description: &str,
    dict: &SymbolDictionary,
) -> (out: String)
    ensures
        out@ == call_text(*callee, callee_description@, args@, args_description@, dict@),
    decreases *args,
{
    let name = match callee {
        MathNode::Identifier(name) => name,
        _ => {
            return diagnostic_text("unsupported function call", callee_description);
        },
    };
    let command = match dict.literal(name.as_str()) {
        Some(command) => command,
        None => {
            return diagnostic_text("no command", name.as_str());
        },
    };
    let middle = String::from_str("\\middle");
    if command == middle {
        if args.len() != 1 {
            return diagnostic_text("unsupported mid arguments", args_description);
        }
        assert(decreases_to!(*args => args[0]));
        return match &args[0] {
            CallArg::Positional(inner) => {
                let inner_text = typst_to_mathjax(inner, dict);
                enclose("\\,\\middle", inner_text.as_str(), "\\,")
            },
            CallArg::Other { description } => diagnostic_text(
                "unsupported mid argument",
                description.as_str(),
            ),
        };
    }
    let mut out = command;
    let mut i: usize = 0;
    assert(arguments_text(args@.take(0), dict@) =~= Seq::<char>::empty());
    assert(out@ =~= out@ + Seq::<char>::empty());
    let ghost head = out@;
    while i < args.len()
        invariant
            i <= args.len(),
            out@ == head + arguments_text(args@.take(i as int), dict@),
        decreases args.len() - i,
    {
        assert(decreases_to!(*args => args[i as int]));
        let piece = match &args[i] {
            CallArg::Positional(inner) => {
                let inner_text = typst_to_mathjax(inner, dict);
                enclose("{", inner_text.as_str(), "}")
            },
            CallArg::Other { description } => diagnostic_text(
                "unsupported argument",
                description.as_str(),
            ),
        };
        assert(piece@ == argument_text(args@[i as int], dict@));
        out.append(piece.as_str());
        proof {
            let next = args@.take(i + 1);
            assert(next.drop_last() =~= args@.take(i as int));
            assert(next.last() == args@[i as int]);
            assert(arguments_text(next, dict@) == arguments_text(args@.take(i as int), dict@)
                + argument_text(args@[i as int], dict@));
            assert(out@ =~= head + arguments_text(next, dict@));
        }
        i += 1;
    }
    assert(args@.take(args.len() as int) =~= args@);
    out
}

} // verus!
