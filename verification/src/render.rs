//! The text that describes the blocks of a parsed document.

use crate::engine::{lemma_trees, trees, Pair};
use crate::grammar::{Rule, Tree};
use vstd::prelude::*;
use vstd::string::StringExecFns;

verus! {

/// Whether a match is a property declaration.
pub open spec fn is_property_match(t: Tree) -> bool {
    t.rule == Rule::property
}

/// The line that a property declaration is listed as: two spaces, then its
/// text.
pub open spec fn property_line(t: Tree) -> Seq<char> {
    "  "@ + t.text
}

/// The lines with a line feed between each two of them.
pub open spec fn join_lines(lines: Seq<Seq<char>>) -> Seq<char>
    decreases lines.len(),
{
    if lines.len() == 0 {
        Seq::empty()
    } else if lines.len() == 1 {
        lines[0]
    } else {
        join_lines(lines.drop_last()) + "\n"@ + lines.last()
    }
}

/// The listing of the property declarations among `children`: those that
/// are property matches, in their order, one on each line.
pub open spec fn properties_text(children: Seq<Tree>) -> Seq<char> {
    join_lines(children.filter(|t: Tree| is_property_match(t)).map_values(|t: Tree| property_line(t)))
}

/// The description of a block: its first child as the selector, its second
/// child as the group of property declarations. A child that is missing
/// leaves its part out.
pub open spec fn block_text(block: Tree) -> Seq<char> {
    let selector = if block.children.len() >= 1 {
        "Selector:\n  "@ + block.children[0].text + "\n"@
    } else {
        Seq::empty()
    };
    let properties = if block.children.len() >= 2 {
        "Properties:\n"@ + properties_text(block.children[1].children) + "\n"@
    } else {
        Seq::empty()
    };
    selector + properties
}

/// The descriptions of the blocks among `matches`, in their order. A match
/// of another rule than `css_block` adds nothing.
pub open spec fn document_text(matches: Seq<Tree>) -> Seq<char>
    decreases matches.len(),
{
    if matches.len() == 0 {
        Seq::empty()
    } else {
        document_text(matches.drop_last()) + if matches.last().rule == Rule::css_block {
            block_text(matches.last())
        } else {
            Seq::empty()
        }
    }
}

/// The lines of the property declarations among the first `n` of `children`.
spec fn lines_of(children: Seq<Tree>, n: int) -> Seq<Seq<char>> {
    children.take(n).filter(|t: Tree| is_property_match(t)).map_values(|t: Tree| property_line(t))
}

/// One more child adds its line if it is a property match, and nothing
/// otherwise.
proof fn lemma_lines_of_next(children: Seq<Tree>, n: int)
    requires
        0 <= n < children.len(),
    ensures
        lines_of(children, n + 1) == if is_property_match(children[n]) {
            lines_of(children, n).push(property_line(children[n]))
        } else {
            lines_of(children, n)
        },
{
    let keep = |t: Tree| is_property_match(t);
    let line = |t: Tree| property_line(t);
    let before = children.take(n);
    reveal(Seq::filter);
    assert(children.take(n + 1).drop_last() =~= before);
    assert(children.take(n + 1).last() == children[n]);
    if is_property_match(children[n]) {
        assert(before.filter(keep).push(children[n]).map_values(line) =~= before.filter(
            keep,
        ).map_values(line).push(property_line(children[n])));
    }
}

/// Lists the property declarations among the children of `pair`, one on
/// each line, each after two spaces.
pub fn parse_properties(pair: &Pair) -> (text: String)
    ensures
        text@ == properties_text(pair@.children),
{
    let mut text = String::new();
    let mut listed: usize = 0;
    let mut i: usize = 0;
    proof {
        lemma_trees(pair.children@);
        reveal(Seq::filter);
        assert(pair@.children.take(0) =~= Seq::<Tree>::empty());
        assert(lines_of(pair@.children, 0) =~= Seq::<Seq<char>>::empty());
    }
    while i < pair.children.len()
        invariant
            i <= pair.children.len(),
            pair@.children == trees(pair.children@),
            pair@.children.len() == pair.children.len(),
            listed <= i,
            listed == lines_of(pair@.children, i as int).len(),
            text@ == join_lines(lines_of(pair@.children, i as int)),
        decreases pair.children.len() - i,
    {
        let child = &pair.children[i];
        proof {
            lemma_trees(pair.children@);
            lemma_lines_of_next(pair@.children, i as int);
            assert(pair@.children[i as int] == child@);
        }
        let ghost before = lines_of(pair@.children, i as int);
        if child.rule == Rule::property {
            proof {
                assert(before.push(property_line(child@)).drop_last() =~= before);
            }
            if listed > 0 {
                text.append("\n");
            }
            text.append("  ");
            text.append(child.text.as_str());
            listed += 1;
            proof {
                if before.len() == 0 {
                    assert(text@ =~= property_line(child@));
                } else {
                    assert(text@ =~= join_lines(before) + "\n"@ + property_line(child@));
                }
            }
        }
        i += 1;
    }
    proof {
        assert(pair@.children.take(i as int) =~= pair@.children);
    }
    text
}

/// Describes a block: the text of its first child under `Selector:`, the
/// listing of its second child's property declarations under `Properties:`.
pub fn render_block(pair: &Pair) -> (text: String)
    ensures
        text@ == block_text(pair@),
{
    let mut text = String::new();
    proof {
        lemma_trees(pair.children@);
    }
    if pair.children.len() >= 1 {
        text.append("Selector:\n  ");
        text.append(pair.children[0].text.as_str());
        text.append("\n");
    }
    if pair.children.len() >= 2 {
        let properties = parse_properties(&pair.children[1]);
        text.append("Properties:\n");
        text.append(properties.as_str());
        text.append("\n");
    }
    assert(text@ =~= block_text(pair@));
    text
}

/// Describes the blocks among `pairs`, first block first, and passes over
/// any match that is no block.
pub fn render_blocks(pairs: &Vec<Pair>) -> (text: String)
    ensures
        text@ == document_text(trees(pairs@)),
{
    let mut text = String::new();
    let mut i: usize = 0;
    proof {
        lemma_trees(pairs@);
        assert(trees(pairs@).take(0) =~= Seq::<Tree>::empty());
    }
    while i < pairs.len()
        invariant
            i <= pairs.len(),
            trees(pairs@).len() == pairs.len(),
            text@ == document_text(trees(pairs@).take(i as int)),
        decreases pairs.len() - i,
    {
        let pair = &pairs[i];
        proof {
            lemma_trees(pairs@);
            assert(trees(pairs@).take(i + 1).drop_last() =~= trees(pairs@).take(i as int));
            assert(trees(pairs@).take(i + 1).last() == pair@);
        }
        if pair.rule == Rule::css_block {
            let block = render_block(pair);
            text.append(block.as_str());
        } else {
            assert(text@ + Seq::<char>::empty() =~= text@);
        }
        i += 1;
    }
    proof {
        assert(trees(pairs@).take(i as int) =~= trees(pairs@));
    }
    text
}

} // verus!
