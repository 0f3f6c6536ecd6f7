use crate::error::ParseError;
use crate::model::category_lookup::{spec_has_collision, spec_has_name, CategoryLookup};
use crate::model::{spec_parse_weight, Category, Weight};
use crate::text::{spec_split, spec_trim};
use vstd::prelude::*;
use vstd::string::*;

verus! {

// ---------------------------------------------------------------------------
// Category line codec: `name;weight[;alias]*`
// ---------------------------------------------------------------------------

/// What one well-formed category line denotes.
pub struct CategoryData {
    pub name: Seq<char>,
    pub weight: Weight,
    pub aliases: Seq<Seq<char>>,
}

/// The category denoted by a stored line: the trimmed name, a decimal weight
/// (defaulting to one when the field is missing; not trimmed), and the
/// trimmed aliases.
pub open spec fn spec_parse_category_line(line: Seq<char>) -> Option<CategoryData> {
    let pieces = spec_split(line, ';');
    let weight = if pieces.len() >= 2 {
        spec_parse_weight(pieces[1])
    } else {
        Some(Weight { scaled: 10000 })
    };
    if weight is None {
        None
    } else {
        Some(
            CategoryData {
                name: spec_trim(pieces[0]),
                weight: weight.unwrap(),
                aliases: if pieces.len() <= 2 {
                    Seq::empty()
                } else {
                    pieces.skip(2).map_values(|p: Seq<char>| spec_trim(p))
                },
            },
        )
    }
}

/// The executable result carries the same data as the specification-level
/// one.
pub open spec fn category_matches(c: Category, d: CategoryData) -> bool {
    c.name@ == d.name && c.weight == d.weight && c.aliases.deep_view() == d.aliases
}

/// Parse one data line of the category file.
pub fn parse_category(line: &str) -> (r: Result<Category, ParseError>)
    ensures
        match spec_parse_category_line(line@) {
            Some(d) => r matches Ok(c) && category_matches(c, d),
            None => r is Err,
        },
{
    let pieces = crate::text::split_str(line, ';');
    proof {
        crate::text::lemma_spec_split_len_pub(line@, ';');
        assert(pieces.deep_view()[0] == pieces[0]@);
    }
    let name = crate::text::trim(pieces[0].as_str());
    let weight: Weight = if pieces.len() >= 2 {
        proof {
            assert(pieces.deep_view()[1] == pieces[1]@);
        }
        match crate::model::parse_weight(pieces[1].as_str()) {
            Some(w) => w,
            None => {
                return Err(ParseError::new("category weight cannot be parsed"));
            },
        }
    } else {
        Weight::one()
    };
    let ghost target = if spec_split(line@, ';').len() <= 2 {
        Seq::<Seq<char>>::empty()
    } else {
        spec_split(line@, ';').skip(2).map_values(|p: Seq<char>| spec_trim(p))
    };
    let mut aliases: Vec<String> = Vec::new();
    let mut j: usize = 2;
    while j < pieces.len()
        invariant
            2 <= j <= pieces@.len() || (pieces@.len() < 2 && j == 2),
            pieces.deep_view() == spec_split(line@, ';'),
            aliases@.len() == (if j >= 2 {
                j - 2
            } else {
                0
            }),
            forall|k: int|
                0 <= k < aliases@.len() ==> (#[trigger] aliases@[k])@ == spec_trim(
                    pieces.deep_view()[k + 2],
                ),
        decreases pieces@.len() - j,
    {
        proof {
            assert(pieces.deep_view()[j as int] == pieces[j as int]@);
        }
        let a = crate::text::trim(pieces[j].as_str()).to_owned();
        aliases.push(a);
        j = j + 1;
    }
    proof {
        assert(target.len() == aliases.deep_view().len());
        assert forall|k: int| 0 <= k < target.len() implies aliases.deep_view()[k]
            == target[k] by {
            assert(aliases.deep_view()[k] == aliases@[k]@);
            assert(spec_split(line@, ';').skip(2)[k] == pieces.deep_view()[k + 2]);
        }
        assert(aliases.deep_view() =~= target);
    }
    Ok(Category { name: name.to_owned(), weight, aliases })
}

// ---------------------------------------------------------------------------
// Category file codec
// ---------------------------------------------------------------------------

/// The first line of the category file names the format version.
pub open spec fn spec_categories_preamble() -> Seq<char> {
    "naday categories v1"@
}

/// A data line that carries nothing: blank, or a comment.
pub open spec fn spec_cat_skippable(t: Seq<char>) -> bool {
    t.len() == 0 || t[0] == '#'
}

/// The categories the data lines carry, and the trimmed lines that parse as
/// no category and are skipped.
pub open spec fn spec_collect_categories(lines: Seq<Seq<char>>) -> (Seq<CategoryData>, Seq<
    Seq<char>,
>)
    decreases lines.len(),
{
    if lines.len() == 0 {
        (Seq::empty(), Seq::empty())
    } else {
        let prev = spec_collect_categories(lines.drop_last());
        let t = spec_trim(lines.last());
        if spec_cat_skippable(t) {
            prev
        } else {
            match spec_parse_category_line(t) {
                Some(d) => (prev.0.push(d), prev.1),
                None => (prev.0, prev.1.push(t)),
            }
        }
    }
}

/// What the whole category file denotes: nothing when it is empty or its
/// first line is not the format preamble (a fatal error), otherwise the
/// categories of its well-formed data lines together with the skipped
/// malformed lines.
pub open spec fn spec_parse_categories(contents: Seq<char>) -> Option<(Seq<CategoryData>, Seq<
    Seq<char>,
>)> {
    if contents.len() == 0 {
        None
    } else {
        let pieces = spec_split(contents, '\n');
        if spec_trim(pieces[0]) != spec_categories_preamble() {
            None
        } else {
            Some(spec_collect_categories(pieces.drop_first()))
        }
    }
}

/// The outcome of reading the category file: the categories of its
/// well-formed lines and the malformed lines that were skipped, which callers
/// report as warnings.
pub struct ParsedCategories {
    pub categories: Vec<Category>,
    pub skipped: Vec<String>,
}

/// Parse the full contents of the category file. A missing or wrong preamble
/// is fatal; a malformed data line is skipped, and well-formed lines around
/// it are still returned.
pub fn parse_categories(contents: &str) -> (r: Result<ParsedCategories, ParseError>)
    ensures
        match spec_parse_categories(contents@) {
            Some(p) => r matches Ok(pc) && pc.categories@.len() == p.0.len() && (forall|k: int|
                0 <= k < p.0.len() ==> category_matches(#[trigger] pc.categories@[k], p.0[k]))
                && pc.skipped.deep_view() == p.1,
            None => r is Err,
        },
{
    let n: usize = contents.unicode_len();
    if n == 0 {
        return Err(ParseError::new("category file seems to be empty"));
    }
    let pieces = crate::text::split_str(contents, '\n');
    proof {
        crate::text::lemma_spec_split_len_pub(contents@, '\n');
        assert(pieces.deep_view()[0] == pieces[0]@);
    }
    let first = crate::text::trim(pieces[0].as_str());
    proof {
        reveal_strlit("naday categories v1");
    }
    if !crate::text::str_eq(first, "naday categories v1") {
        return Err(
            ParseError::new(
                "no valid preamble found - unable to determine category file format",
            ),
        );
    }
    let ghost lines = spec_split(contents@, '\n').drop_first();
    let mut categories: Vec<Category> = Vec::new();
    let mut skipped: Vec<String> = Vec::new();
    let mut i: usize = 1;
    proof {
        assert(lines.take(0) =~= Seq::<Seq<char>>::empty());
    }
    while i < pieces.len()
        invariant
            1 <= i <= pieces.len(),
            pieces.deep_view() == spec_split(contents@, '\n'),
            lines == spec_split(contents@, '\n').drop_first(),
            pieces@.len() == lines.len() + 1,
            categories@.len() == spec_collect_categories(lines.take(i - 1)).0.len(),
            forall|k: int|
                0 <= k < categories@.len() ==> category_matches(
                    #[trigger] categories@[k],
                    spec_collect_categories(lines.take(i - 1)).0[k],
                ),
            skipped.deep_view() == spec_collect_categories(lines.take(i - 1)).1,
        decreases pieces.len() - i,
    {
        proof {
            assert(pieces.deep_view()[i as int] == pieces[i as int]@);
            assert(lines.take(i as int).drop_last() =~= lines.take(i - 1));
            assert(lines.take(i as int).last() == lines[i - 1]);
            assert(lines[i - 1] == pieces.deep_view()[i as int]);
        }
        let ghost prev = spec_collect_categories(lines.take(i - 1));
        let line = crate::text::trim(pieces[i].as_str());
        let ln: usize = line.unicode_len();
        if ln == 0 || line.get_char(0) == '#' {
            // blank line or comment
        } else {
            match parse_category(line) {
                Ok(c) => {
                    categories.push(c);
                    proof {
                        assert(categories@.drop_last() =~= categories@.take(
                            categories@.len() - 1,
                        ));
                    }
                },
                Err(_) => {
                    skipped.push(line.to_owned());
                    proof {
                        assert(skipped.deep_view() =~~= prev.1.push(spec_trim(
                            pieces.deep_view()[i as int],
                        )));
                    }
                },
            }
        }
        i = i + 1;
    }
    proof {
        assert(lines.take(pieces@.len() - 1) =~= lines);
    }
    Ok(ParsedCategories { categories, skipped })
}

/// The text a fresh category file is created with: the preamble, the format
/// comments, and the documented default categories.
pub open spec fn spec_default_category_contents() -> Seq<char> {
    "naday categories v1\n# List of activity categories and their attributes.\n# Lines beginning with '#' are comments and are ignored.\n# The remaining lines are basically plain CSV, with one category per line.\n# Separator character is ';', encoding is UTF-8.\n# Columns: display name ; 'weight' of repetitions in relation to other activities [; alias]*\nPushups;1;pu;push\nSitups;1;si\nBurpees;1.5;bu\nPlankSeconds;0.33;pl\nWalkingSteps;0.01;wa\n# General category for unplanned / one-off strenuous activity\nExtra;1;x\n"@
}

pub fn default_category_contents() -> (r: String)
    ensures
        r@ == spec_default_category_contents(),
{
    let h =
        "naday categories v1\n# List of activity categories and their attributes.\n# Lines beginning with '#' are comments and are ignored.\n# The remaining lines are basically plain CSV, with one category per line.\n# Separator character is ';', encoding is UTF-8.\n# Columns: display name ; 'weight' of repetitions in relation to other activities [; alias]*\nPushups;1;pu;push\nSitups;1;si\nBurpees;1.5;bu\nPlankSeconds;0.33;pl\nWalkingSteps;0.01;wa\n# General category for unplanned / one-off strenuous activity\nExtra;1;x\n";
    h.to_owned()
}

// ---------------------------------------------------------------------------
// Registry construction
// ---------------------------------------------------------------------------

/// What registering one category does to a registry: an already-registered
/// canonical name is ignored, a key collision is fatal, anything else
/// appends.
pub open spec fn spec_add_category(reg: Seq<Category>, c: Category) -> Option<Seq<Category>> {
    if spec_has_name(reg, c.name@) {
        Some(reg)
    } else if spec_has_collision(reg, c) {
        None
    } else {
        Some(reg.push(c))
    }
}

/// The registry that registering the categories in order yields, or nothing
/// if some registration collides.
pub open spec fn spec_build_lookup(cats: Seq<Category>) -> Option<Seq<Category>>
    decreases cats.len(),
{
    if cats.len() == 0 {
        Some(Seq::empty())
    } else {
        match spec_build_lookup(cats.drop_last()) {
            Some(reg) => spec_add_category(reg, cats.last()),
            None => None,
        }
    }
}

proof fn lemma_build_none_persists(cats: Seq<Category>, i: int)
    requires
        0 <= i <= cats.len(),
        spec_build_lookup(cats.take(i)) is None,
    ensures
        spec_build_lookup(cats) is None,
    decreases cats.len() - i,
{
    if i == cats.len() {
        assert(cats.take(i) =~= cats);
    } else {
        assert(cats.take(i + 1).drop_last() =~= cats.take(i));
        lemma_build_none_persists(cats, i + 1);
    }
}

/// Register the categories in order. The error of the first colliding
/// registration, if any, is the result.
pub fn build_lookup(cats: Vec<Category>) -> (r: Result<CategoryLookup, String>)
    ensures
        match spec_build_lookup(cats@) {
            Some(reg) => r matches Ok(l) && l@ == reg && l.wf(),
            None => r is Err,
        },
{
    let ghost all = cats@;
    let mut rest = cats;
    let n: usize = rest.len();
    let mut lookup = CategoryLookup::new();
    let mut i: usize = 0;
    proof {
        assert(all.take(0) =~= Seq::<Category>::empty());
        assert(rest@ =~= all.skip(0));
    }
    while i < n
        invariant
            0 <= i <= n,
            n == all.len(),
            all == cats@,
            rest@ == all.skip(i as int),
            lookup.wf(),
            spec_build_lookup(all.take(i as int)) == Some(lookup@),
        decreases n - i,
    {
        proof {
            assert(all.skip(i as int)[0] == all[i as int]);
        }
        let c = rest.remove(0);
        proof {
            assert(rest@ =~= all.skip(i + 1));
            assert(all.take(i + 1).drop_last() =~= all.take(i as int));
            assert(all.take(i + 1).last() == all[i as int]);
        }
        match lookup.add(c) {
            Ok(()) => {},
            Err(m) => {
                proof {
                    assert(spec_add_category(lookup@, all[i as int]) is None);
                    assert(spec_build_lookup(all.take(i + 1)) is None);
                    lemma_build_none_persists(all, i + 1);
                }
                return Err(m);
            },
        }
        i = i + 1;
    }
    proof {
        assert(all.take(n as int) =~= all);
    }
    Ok(lookup)
}

} // verus!
