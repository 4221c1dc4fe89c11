//! Source structure: every method declaration of a C# file, with its declaring
//! class and namespace, read from the syntax tree that tree-sitter builds.

use vstd::prelude::*;
use tree_sitter::{Node, Parser};
use crate::model::TestMethodInfo;
use crate::text::{chars_of, dot_join, dotted, is_str, push_all, starts_with, string_of};

verus! {

#[verifier::external_type_specification]
#[verifier::external_body]
pub struct ExNode<'tree>(Node<'tree>);

/// A node of a syntax tree as plain values: the grammar's kind, the source
/// text it spans, and its children in order.
#[derive(Debug)]
pub struct SyntaxNode {
    pub kind: String,
    pub text: String,
    pub children: Vec<SyntaxNode>,
}

/// Name for the syntax tree that tree-sitter's C# grammar gives for a source text.
pub uninterp spec fn csharp_tree_of(content: Seq<char>) -> SyntaxNode;

/// Relies on `tree_sitter::Node::kind`, `Node::byte_range`, `Node::child_count`
/// and `Node::child`: the node and its descendants copied out; a node whose
/// range is not valid UTF-8 text of `source` gets empty text.
#[verifier::external_body]
fn plain_node(node: &Node, source: &str) -> SyntaxNode {
    let text = source.as_bytes().get(node.byte_range()).and_then(|b| std::str::from_utf8(b).ok()).unwrap_or("");
    let children = (0..node.child_count()).filter_map(|i| node.child(i)).map(|c| plain_node(&c, source)).collect();
    SyntaxNode { kind: node.kind().to_string(), text: text.to_string(), children }
}

/// Relies on `tree_sitter::Parser::new`, `Parser::set_language` with
/// tree-sitter-c-sharp's grammar, and `Parser::parse`: the error's text when
/// the grammar is refused; no tree when the parser gives none; otherwise the
/// syntax tree of `content`.
#[verifier::external_body]
fn csharp_tree(content: &str) -> (r: Result<Option<SyntaxNode>, String>)
    ensures
        r is Ok && r->Ok_0 is Some ==> r->Ok_0->0 == csharp_tree_of(content@),
{
    let mut parser = Parser::new();
    parser.set_language(&tree_sitter_c_sharp::LANGUAGE.into()).map_err(|e| format!("{}", e))?;
    Ok(parser.parse(content, None).map(|tree| plain_node(&tree.root_node(), content)))
}

/// Deepest level of the syntax tree that is searched.
pub const MAX_DEPTH: usize = 4096;

/// A declaration as plain values: method, class, namespace.
pub type MethodView = (Seq<char>, Seq<char>, Seq<char>);

pub open spec fn methods_view(v: Seq<TestMethodInfo>) -> Seq<MethodView> {
    v.map_values(|m: TestMethodInfo| (m.method_name@, m.class_name@, m.namespace@))
}

/// Text of the first of the nodes `cs[i..]` of kind `kind`, or of kind
/// `other` when `other` is not empty.
pub open spec fn first_text(cs: Seq<SyntaxNode>, i: int, kind: Seq<char>, other: Seq<char>) -> Option<Seq<char>>
    decreases cs.len() - i,
{
    if i < 0 || i >= cs.len() {
        None
    } else if cs[i].kind@ == kind || (other.len() > 0 && cs[i].kind@ == other) {
        Some(cs[i].text@)
    } else {
        first_text(cs, i + 1, kind, other)
    }
}

/// The name a namespace declaration gives: its first qualified name or identifier.
pub open spec fn namespace_name_of(n: SyntaxNode) -> Seq<char> {
    match first_text(n.children@, 0, "qualified_name"@, "identifier"@) {
        Some(t) => t,
        None => Seq::empty(),
    }
}

/// Every method declaration under `n`, down to `depth` levels, with the class
/// and dotted namespace that enclose it, in document order. A method's own
/// body is not searched; a file-scoped namespace applies to the declarations
/// after it.
pub open spec fn methods_in(n: SyntaxNode, ns: Seq<char>, class: Seq<char>, depth: nat) -> Seq<MethodView>
    decreases depth, 0int,
{
    if depth == 0 {
        Seq::empty()
    } else if n.kind@ == "method_declaration"@ {
        match first_text(n.children@, 0, "identifier"@, Seq::empty()) {
            Some(t) => seq![(t, class, ns)],
            None => Seq::empty(),
        }
    } else {
        let active = if n.kind@ == "namespace_declaration"@ {
            if ns.len() == 0 {
                namespace_name_of(n)
            } else {
                dot_join(ns, namespace_name_of(n))
            }
        } else {
            ns
        };
        let cls = if n.kind@ == "class_declaration"@ {
            match first_text(n.children@, 0, "identifier"@, Seq::empty()) {
                Some(t) => t,
                None => Seq::empty(),
            }
        } else {
            class
        };
        methods_in_children(n.children@, 0, active, cls, (depth - 1) as nat, n.kind@ == "compilation_unit"@)
    }
}

/// Methods under the nodes `cs[i..]`; in a compilation unit a file-scoped
/// namespace declaration sets the namespace of the nodes after it.
pub open spec fn methods_in_children(
    cs: Seq<SyntaxNode>,
    i: int,
    ns: Seq<char>,
    class: Seq<char>,
    depth: nat,
    unit: bool,
) -> Seq<MethodView>
    decreases depth, cs.len() - i,
{
    if i < 0 || i >= cs.len() {
        Seq::empty()
    } else if unit && cs[i].kind@ == "file_scoped_namespace_declaration"@ {
        methods_in_children(cs, i + 1, namespace_name_of(cs[i]), class, depth, unit)
    } else {
        methods_in(cs[i], ns, class, depth) + methods_in_children(cs, i + 1, ns, class, depth, unit)
    }
}

/// Text of the first child of kind `kind` (or `other`, when not empty).
fn first_child_text(node: &SyntaxNode, kind: &str, other: &str) -> (r: Option<String>)
    ensures
        match first_text(node.children@, 0, kind@, other@) {
            Some(t) => r is Some && r->0@ == t,
            None => r is None,
        },
{
    let mut i: usize = 0;
    while i < node.children.len()
        invariant
            i <= node.children@.len(),
            first_text(node.children@, 0, kind@, other@) == first_text(node.children@, i as int, kind@, other@),
        decreases node.children@.len() - i,
    {
        let child = &node.children[i];
        let k = chars_of(child.kind.as_str());
        if is_str(k.as_slice(), kind) || (!other.is_empty() && is_str(k.as_slice(), other)) {
            return Some(child.text.clone());
        }
        i = i + 1;
    }
    None
}

fn namespace_name(node: &SyntaxNode) -> (r: String)
    ensures
        r@ == namespace_name_of(*node),
{
    match first_child_text(node, "qualified_name", "identifier") {
        Some(s) => s,
        None => string_of(&[]),
    }
}

/// Records every method declaration under `node`, with the class and
/// namespace that enclose it, after those already in `methods`.
pub fn find_test_methods(
    node: &SyntaxNode,
    namespace: &String,
    class: &String,
    methods: &mut Vec<TestMethodInfo>,
    depth: usize,
)
    ensures
        methods_view(final(methods)@) == methods_view(old(methods)@) + methods_in(
            *node,
            namespace@,
            class@,
            depth as nat,
        ),
    decreases depth,
{
    let ghost start = methods_view(methods@);
    proof {
        reveal_strlit("");
        reveal_strlit("namespace_declaration");
        reveal_strlit("class_declaration");
        assert(""@ =~= Seq::<char>::empty());
    }
    if depth == 0 {
        assert(start + Seq::<MethodView>::empty() =~= start);
        return;
    }
    let k = chars_of(node.kind.as_str());
    if is_str(k.as_slice(), "method_declaration") {
        match first_child_text(node, "identifier", "") {
            Some(name) => {
                let ghost nv = name@;
                methods.push(TestMethodInfo { method_name: name, class_name: class.clone(), namespace: namespace.clone() });
                assert(methods_view(methods@) =~= start + seq![(nv, class@, namespace@)]);
            },
            None => {
                assert(start + Seq::<MethodView>::empty() =~= start);
            },
        }
        return;
    }
    let unit = is_str(k.as_slice(), "compilation_unit");
    let mut active = namespace.clone();
    let mut current_class = class.clone();
    assert(current_class@ == class@);
    if is_str(k.as_slice(), "namespace_declaration") {
        let name = namespace_name(node);
        active = if namespace.as_str().is_empty() {
            name
        } else {
            dotted(namespace.as_str(), name.as_str())
        };
        assert("namespace_declaration"@.len() != "class_declaration"@.len());
        assert(node.kind@ != "class_declaration"@);
    } else if is_str(k.as_slice(), "class_declaration") {
        let found = first_child_text(node, "identifier", "");
        assert(first_text(node.children@, 0, "identifier"@, ""@) == first_text(node.children@, 0, "identifier"@, Seq::empty()));
        current_class = match found {
            Some(s) => s,
            None => {
                let e = string_of(&[]);
                assert(e@ =~= Seq::<char>::empty());
                e
            },
        };
    }
    let d = depth - 1;
    let ghost goal = methods_in_children(node.children@, 0, active@, current_class@, d as nat, unit);
    let ghost sa = if node.kind@ == "namespace_declaration"@ {
        if namespace@.len() == 0 { namespace_name_of(*node) } else { dot_join(namespace@, namespace_name_of(*node)) }
    } else {
        namespace@
    };
    let ghost sc = if node.kind@ == "class_declaration"@ {
        match first_text(node.children@, 0, "identifier"@, Seq::empty()) {
            Some(t) => t,
            None => Seq::empty(),
        }
    } else {
        class@
    };
    assert(active@ == sa);
    assert(current_class@ == sc);
    assert(methods_in(*node, namespace@, class@, depth as nat) == methods_in_children(node.children@, 0, sa, sc, d as nat, unit));
    assert(methods_in(*node, namespace@, class@, depth as nat) == goal);
    let mut i: usize = 0;
    while i < node.children.len()
        invariant
            i <= node.children@.len(),
            d < depth,
            methods_view(methods@) + methods_in_children(node.children@, i as int, active@, current_class@, d as nat, unit)
                == start + goal,
        decreases node.children@.len() - i,
    {
        let child = &node.children[i];
        let ghost before = methods_view(methods@);
        let ck = chars_of(child.kind.as_str());
        if unit && is_str(ck.as_slice(), "file_scoped_namespace_declaration") {
            active = namespace_name(child);
        } else {
            find_test_methods(child, &active, &current_class, methods, d);
            assert(before + methods_in_children(node.children@, i as int, active@, current_class@, d as nat, unit)
                =~= methods_view(methods@) + methods_in_children(node.children@, i + 1, active@, current_class@, d as nat, unit));
        }
        i = i + 1;
    }
    assert(methods_in_children(node.children@, i as int, active@, current_class@, d as nat, unit) =~= Seq::<MethodView>::empty());
    assert(methods_view(methods@) + Seq::<MethodView>::empty() =~= methods_view(methods@));
}

/// Every method declaration of a C# source text, in document order, with its
/// class and namespace. All methods are recorded: which are tests is for the
/// test tool to say. Fails only when the grammar is refused (the message
/// starts `Failed to set language: `) or the parser gives no tree.
pub fn parse_test_content(content: &str) -> (r: Result<Vec<TestMethodInfo>, String>)
    ensures
        r is Ok ==> methods_view(r->Ok_0@) == methods_in(csharp_tree_of(content@), Seq::empty(), Seq::empty(), MAX_DEPTH as nat),
        r is Err ==> starts_with(r->Err_0@, "Failed to set language: "@) || r->Err_0@ == "Failed to parse C# content"@,
{
    let tree = match csharp_tree(content) {
        Ok(Some(t)) => t,
        Ok(None) => {
            return Err(string_of(chars_of("Failed to parse C# content").as_slice()));
        },
        Err(e) => {
            let mut m = chars_of("Failed to set language: ");
            let ec = chars_of(e.as_str());
            let ghost mv = m@;
            push_all(&mut m, ec.as_slice());
            assert(m@.subrange(0, mv.len() as int) =~= mv);
            return Err(string_of(m.as_slice()));
        },
    };
    let mut methods: Vec<TestMethodInfo> = Vec::new();
    let empty = string_of(&[]);
    assert(empty@ =~= Seq::<char>::empty());
    find_test_methods(&tree, &empty, &empty, &mut methods, MAX_DEPTH);
    assert(methods_view(Seq::<TestMethodInfo>::empty()) =~= Seq::<MethodView>::empty());
    assert(Seq::<MethodView>::empty() + methods_in(tree, Seq::empty(), Seq::empty(), MAX_DEPTH as nat)
        =~= methods_in(tree, Seq::empty(), Seq::empty(), MAX_DEPTH as nat));
    Ok(methods)
}

} // verus!
