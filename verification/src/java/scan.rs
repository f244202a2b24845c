//! The syntax tree of a Java source text and the nodes in it that a rule matches.

use ast_grep_config::{from_yaml_string, GlobalRules};
use ast_grep_core::AstGrep;
use ast_grep_language::Java;
use vstd::prelude::*;

use crate::java::ast::{positions_fit, tree, AstNode, NodeView};
use crate::java::extractor::is_rule_file;
use crate::text::texts;

verus! {

/// A node that a rule matches, with the node that each of the labels was bound to.
#[derive(Debug, PartialEq, Eq)]
pub struct AstMatch {
    pub node: usize,
    pub captures: Vec<Option<usize>>,
}

pub struct MatchView {
    pub node: usize,
    pub captures: Seq<Option<usize>>,
}

impl View for AstMatch {
    type V = MatchView;

    open spec fn view(&self) -> MatchView {
        MatchView { node: self.node, captures: self.captures@ }
    }
}

pub open spec fn match_views(v: Seq<AstMatch>) -> Seq<MatchView> {
    v.map_values(|m: AstMatch| m@)
}

/// Every node of the match is one of the `n` nodes of the tree, and there is an entry for each of
/// the `labels` labels.
pub open spec fn match_fits(m: MatchView, labels: int, n: int) -> bool {
    &&& m.node < n
    &&& m.captures.len() == labels
    &&& forall|i: int|
        0 <= i < labels ==> (#[trigger] m.captures[i] matches Some(k) ==> k < n)
}

pub open spec fn matches_fit(ms: Seq<MatchView>, labels: int, n: int) -> bool {
    forall|i: int| 0 <= i < ms.len() ==> #[trigger] match_fits(ms[i], labels, n)
}

/// The syntax tree that ast-grep builds of a Java source text, or its message.
pub uninterp spec fn java_tree(source: Seq<char>) -> Result<Seq<NodeView>, Seq<char>>;

/// The nodes of the syntax tree of a Java source text that ast-grep finds for the rule of a rule
/// file, with what the labels are bound to, or its message.
pub uninterp spec fn java_matches(
    rule: Seq<char>,
    labels: Seq<Seq<char>>,
    source: Seq<char>,
) -> Result<Seq<MatchView>, Seq<char>>;

/// `AstGrep::try_new` of ast-grep parses the text; `Node::dfs` lists the nodes in depth-first
/// order. Of each node this keeps the kind, the text, the byte range, the zero-based lines and
/// character columns, and the number of ancestors. The result depends on the text alone. No line
/// or column reaches the largest number, since the text itself is no longer than that.
#[verifier::external_body]
fn parse_java(source: &str) -> (r: Result<Vec<AstNode>, String>)
    ensures
        match r {
            Ok(t) => java_tree(source@) == Ok::<Seq<NodeView>, Seq<char>>(tree(t@)) && positions_fit(
                tree(t@),
            ),
            Err(e) => java_tree(source@) == Err::<Seq<NodeView>, Seq<char>>(e@),
        },
{
    let root = AstGrep::try_new(source, Java)?;
    let top = root.root();
    Ok(top.dfs().map(|n| AstNode {
        kind: n.kind().to_string(),
        text: n.text().to_string(),
        start_byte: n.range().start,
        end_byte: n.range().end,
        start: (n.start_pos().line(), n.start_pos().column(&n)),
        end: (n.end_pos().line(), n.end_pos().column(&n)),
        depth: n.ancestors().count(),
    }).collect())
}

/// `from_yaml_string` of ast-grep compiles the rule file; `Node::find_all` lists the nodes that
/// its rule matches, and `MetaVarEnv::get_match` gives what a label is bound to. A node is named by
/// its place in the depth-first order, so it is one of the nodes of the tree of the same text. For
/// the rules of this library, of which each is one document without constraints and
/// transformations, the result depends on the rule file, the labels and the text alone, and
/// nothing panics. For other rules neither is claimed: transformations can make the compilation
/// panic, and constraints are tried in the order of a hash map.
#[verifier::external_body]
fn find_java_matches(rule: &str, labels: &Vec<String>, source: &str) -> (r: Result<
    Vec<AstMatch>,
    String,
>)
    requires
        is_rule_file(rule@),
    ensures
        match r {
            Ok(ms) => java_matches(rule@, texts(labels@), source@) == Ok::<
                Seq<MatchView>,
                Seq<char>,
            >(match_views(ms@)) && (java_tree(source@) matches Ok(t) ==> matches_fit(
                match_views(ms@),
                labels@.len() as int,
                t.len() as int,
            )),
            Err(e) => java_matches(rule@, texts(labels@), source@) == Err::<
                Seq<MatchView>,
                Seq<char>,
            >(e@),
        },
{
    let rules = from_yaml_string::<Java>(rule, &GlobalRules::default()).map_err(|e| e.to_string())?;
    let root = AstGrep::try_new(source, Java)?;
    let top = root.root();
    let at = |id: usize| top.dfs().position(|n| n.node_id() == id).expect("a node of the tree");
    Ok(top.find_all(&rules[0].matcher).map(|m| AstMatch {
        node: at(m.node_id()),
        captures: labels.iter().map(|l| m.get_env().get_match(l).map(|n| at(n.node_id()))).collect(),
    }).collect())
}

/// A syntax tree, and what a rule matches in it.
#[derive(Debug, PartialEq, Eq)]
pub struct JavaScan {
    pub nodes: Vec<AstNode>,
    pub matches: Vec<AstMatch>,
}

pub struct ScanView {
    pub nodes: Seq<NodeView>,
    pub matches: Seq<MatchView>,
}

impl View for JavaScan {
    type V = ScanView;

    open spec fn view(&self) -> ScanView {
        ScanView { nodes: tree(self.nodes@), matches: match_views(self.matches@) }
    }
}

impl JavaScan {
    /// Every match names nodes of the tree, and there is an entry for each of the labels.
    pub open spec fn wf(&self, labels: int) -> bool {
        positions_fit(self@.nodes) && matches_fit(
            self@.matches,
            labels,
            self@.nodes.len() as int,
        )
    }
}

/// The tree of a source text with the matches of a rule. The rule is compiled first, so that its
/// message comes before one about the text.
pub open spec fn java_scan(
    rule: Seq<char>,
    labels: Seq<Seq<char>>,
    source: Seq<char>,
) -> Result<ScanView, Seq<char>> {
    match java_matches(rule, labels, source) {
        Err(e) => Err(e),
        Ok(matches) => match java_tree(source) {
            Err(e) => Err(e),
            Ok(nodes) => Ok(ScanView { nodes, matches }),
        },
    }
}

/// The tree of a source text with the matches of a rule, which is that of some extractors.
pub fn scan_java(rule: &str, labels: &Vec<String>, source: &str) -> (r: Result<JavaScan, String>)
    requires
        is_rule_file(rule@),
    ensures
        match r {
            Ok(s) => java_scan(rule@, texts(labels@), source@) == Ok::<ScanView, Seq<char>>(s@)
                && s.wf(labels@.len() as int),
            Err(e) => java_scan(rule@, texts(labels@), source@) == Err::<ScanView, Seq<char>>(e@),
        },
{
    let matches = match find_java_matches(rule, labels, source) {
        Ok(ms) => ms,
        Err(e) => {
            return Err(e);
        },
    };
    match parse_java(source) {
        Ok(nodes) => Ok(JavaScan { nodes, matches }),
        Err(e) => Err(e),
    }
}

} // verus!
