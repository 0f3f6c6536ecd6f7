use crate::model::Category;
use crate::text::str_eq;
use vstd::prelude::*;
use vstd::string::*;

verus! {

/// No string is a lookup key of both categories.
pub open spec fn keys_disjoint(a: Category, b: Category) -> bool {
    forall|k: Seq<char>| !(a.keys().contains(k) && b.keys().contains(k))
}

/// The lookup keys of the registered categories are pairwise disjoint: every
/// name and alias belongs to exactly one category.
pub open spec fn keys_pairwise_disjoint(cats: Seq<Category>) -> bool {
    forall|i: int, j: int|
        0 <= i < j < cats.len() ==> keys_disjoint(#[trigger] cats[i], #[trigger] cats[j])
}

/// Some registered category has this canonical name.
pub open spec fn spec_has_name(cats: Seq<Category>, name: Seq<char>) -> bool {
    exists|i: int| 0 <= i < cats.len() && (#[trigger] cats[i]).name@ == name
}

/// Some registered category has this string among its lookup keys.
pub open spec fn spec_has_key(cats: Seq<Category>, key: Seq<char>) -> bool {
    exists|i: int| 0 <= i < cats.len() && (#[trigger] cats[i]).keys().contains(key)
}

/// The first registered category with this lookup key, if any.
pub open spec fn spec_find(cats: Seq<Category>, key: Seq<char>) -> Option<Category>
    decreases cats.len(),
{
    if cats.len() == 0 {
        None
    } else if cats[0].keys().contains(key) {
        Some(cats[0])
    } else {
        spec_find(cats.drop_first(), key)
    }
}

/// A key of the new category that is already in use, the first such in the
/// order name-then-aliases.
pub open spec fn first_colliding_key(cats: Seq<Category>, keys: Seq<Seq<char>>) -> Seq<char>
    decreases keys.len(),
{
    if keys.len() == 0 {
        Seq::empty()
    } else if spec_has_key(cats, keys[0]) {
        keys[0]
    } else {
        first_colliding_key(cats, keys.drop_first())
    }
}

/// The message that a rejected registration reports: it names the key and
/// both categories that want it.
pub open spec fn spec_dup_msg(cats: Seq<Category>, category: Category) -> Seq<char> {
    let k = first_colliding_key(cats, category.keys());
    "Duplicate category key: '"@ + k + "' is used by '"@ + category.name@ + "' and '"@ + spec_find(
        cats,
        k,
    ).unwrap().name@ + "'"@
}

/// The new category collides: one of its keys is already some other
/// category's key.
pub open spec fn spec_has_collision(cats: Seq<Category>, category: Category) -> bool {
    exists|n: int| 0 <= n < category.keys().len() && spec_has_key(cats, #[trigger] category.keys()[n])
}

/// Collection holding all known categories, able to find a category by its
/// name or any alias. Categories live in an arena in registration order.
pub struct CategoryLookup {
    categories: Vec<Category>,
}

impl View for CategoryLookup {
    type V = Seq<Category>;

    closed spec fn view(&self) -> Seq<Category> {
        self.categories@
    }
}

impl CategoryLookup {
    pub open spec fn wf(self) -> bool {
        keys_pairwise_disjoint(self@)
    }

    pub fn new() -> (r: CategoryLookup)
        ensures
            r@ == Seq::<Category>::empty(),
            r.wf(),
    {
        CategoryLookup { categories: Vec::new() }
    }

    /// How many categories are registered.
    pub fn len(&self) -> (r: usize)
        ensures
            r == self@.len(),
    {
        self.categories.len()
    }

    /// All registered categories, in registration order.
    pub fn iter(&self) -> (r: &Vec<Category>)
        ensures
            r@ == self@,
    {
        &self.categories
    }

    /// Index of the first category having the key, if any.
    fn find_index(&self, alias_or_name: &str) -> (r: Option<usize>)
        ensures
            match r {
                Some(j) => 0 <= j < self@.len() && self@[j as int].keys().contains(alias_or_name@)
                    && spec_find(self@, alias_or_name@) == Some(self@[j as int]) && (forall|l: int|
                    0 <= l < j ==> !(#[trigger] self@[l]).keys().contains(alias_or_name@)),
                None => !spec_has_key(self@, alias_or_name@) && spec_find(self@, alias_or_name@)
                    is None,
            },
    {
        let ghost cats = self@;
        proof {
            assert(cats.skip(0) =~= cats);
        }
        let mut i: usize = 0;
        while i < self.categories.len()
            invariant
                0 <= i <= cats.len(),
                cats == self@,
                forall|l: int| 0 <= l < i ==> !(#[trigger] cats[l]).keys().contains(alias_or_name@),
                spec_find(cats, alias_or_name@) == spec_find(
                    cats.skip(i as int),
                    alias_or_name@,
                ),
            decreases cats.len() - i,
        {
            proof {
                assert(cats.skip(i as int)[0] == cats[i as int]);
                assert(cats.skip(i as int).drop_first() =~= cats.skip(i + 1));
            }
            if category_has_key(&self.categories[i], alias_or_name) {
                return Some(i);
            }
            i = i + 1;
        }
        proof {
            assert(cats.skip(i as int) =~= Seq::<Category>::empty());
            if spec_has_key(cats, alias_or_name@) {
                let w = choose|w: int|
                    0 <= w < cats.len() && (#[trigger] cats[w]).keys().contains(alias_or_name@);
                assert(!cats[w].keys().contains(alias_or_name@));
            }
        }
        None
    }

    /// Find a category by its canonical name or any alias: case-sensitive
    /// exact match.
    pub fn find(&self, alias_or_name: &str) -> (r: Option<&Category>)
        ensures
            match r {
                Some(c) => spec_find(self@, alias_or_name@) == Some(*c),
                None => spec_find(self@, alias_or_name@) is None,
            },
    {
        match self.find_index(alias_or_name) {
            Some(j) => Some(&self.categories[j]),
            None => None,
        }
    }

    /// Register a category. Re-adding one whose canonical name is already
    /// registered is silently ignored; one whose name or alias is already
    /// another category's key is rejected, naming both categories, and
    /// leaves the registry unchanged.
    pub fn add(&mut self, category: Category) -> (r: Result<(), String>)
        requires
            old(self).wf(),
        ensures
            final(self).wf(),
            spec_has_name(old(self)@, category.name@) ==> r is Ok && final(self)@ == old(self)@,
            !spec_has_name(old(self)@, category.name@) && spec_has_collision(
                old(self)@,
                category,
            ) ==> final(self)@ == old(self)@ && (r matches Err(m) && m@ == spec_dup_msg(
                old(self)@,
                category,
            )),
            !spec_has_name(old(self)@, category.name@) && !spec_has_collision(
                old(self)@,
                category,
            ) ==> r is Ok && final(self)@ == old(self)@.push(category),
    {
        let ghost cats = self@;
        // a category with the same canonical name is ignored
        let mut i: usize = 0;
        while i < self.categories.len()
            invariant
                0 <= i <= cats.len(),
                cats == self@,
                old(self)@ == self@,
                keys_pairwise_disjoint(cats),
                forall|l: int| 0 <= l < i ==> (#[trigger] cats[l]).name@ != category.name@,
            decreases cats.len() - i,
        {
            if str_eq(self.categories[i].name.as_str(), category.name.as_str()) {
                return Ok(());
            }
            i = i + 1;
        }
        proof {
            if spec_has_name(cats, category.name@) {
                let w = choose|w: int|
                    0 <= w < cats.len() && (#[trigger] cats[w]).name@ == category.name@;
                assert(cats[w].name@ != category.name@);
            }
        }
        // any key already in use by a different category rejects the addition
        let keys = category.all_names();
        let ghost kseq = category.keys();
        proof {
            assert(kseq.skip(0) =~= kseq);
        }
        let mut n: usize = 0;
        while n < keys.len()
            invariant
                0 <= n <= kseq.len(),
                keys@.len() == kseq.len(),
                keys.deep_view() == kseq,
                kseq == category.keys(),
                cats == self@,
                old(self)@ == self@,
                keys_pairwise_disjoint(cats),
                !spec_has_name(cats, category.name@),
                forall|l: int| 0 <= l < n ==> !spec_has_key(cats, #[trigger] kseq[l]),
                first_colliding_key(cats, kseq) == first_colliding_key(
                    cats,
                    kseq.skip(n as int),
                ),
            decreases kseq.len() - n,
        {
            proof {
                assert(kseq.skip(n as int)[0] == kseq[n as int]);
                assert(kseq.skip(n as int).drop_first() =~= kseq.skip(n + 1));
                assert(keys.deep_view()[n as int] == keys[n as int]@);
            }
            match self.find_index(keys[n].as_str()) {
                Some(j) => {
                    assert(first_colliding_key(cats, kseq) == kseq[n as int]);
                    let mut msg = String::new();
                    msg.append("Duplicate category key: '");
                    msg.append(keys[n].as_str());
                    msg.append("' is used by '");
                    msg.append(category.name.as_str());
                    msg.append("' and '");
                    msg.append(self.categories[j].name.as_str());
                    msg.append("'");
                    proof {
                        assert(spec_has_collision(cats, category));
                        assert(msg@ =~= spec_dup_msg(cats, category));
                    }
                    return Err(msg);
                },
                None => {},
            }
            n = n + 1;
        }
        proof {
            if spec_has_collision(cats, category) {
                let w = choose|w: int|
                    0 <= w < category.keys().len() && spec_has_key(
                        cats,
                        #[trigger] category.keys()[w],
                    );
                assert(!spec_has_key(cats, kseq[w]));
            }
        }
        self.categories.push(category);
        proof {
            assert forall|a: int, b: int|
                0 <= a < b < self@.len() implies keys_disjoint(
                #[trigger] self@[a],
                #[trigger] self@[b],
            ) by {
                if b == cats.len() {
                    assert forall|k: Seq<char>|
                        !(self@[a].keys().contains(k) && category.keys().contains(
                            k,
                        )) by {
                        if self@[a].keys().contains(k) && category.keys().contains(k) {
                            let ki = choose|ki: int|
                                0 <= ki < category.keys().len() && category.keys()[ki] == k;
                            assert(spec_has_key(cats, kseq[ki]));
                        }
                    }
                }
            }
        }
        Ok(())
    }
}

/// Whether the string is the category's name or one of its aliases.
fn category_has_key(c: &Category, key: &str) -> (r: bool)
    ensures
        r == c.keys().contains(key@),
{
    if str_eq(c.name.as_str(), key) {
        proof {
            assert(c.keys()[0] == c.name@);
        }
        return true;
    }
    let mut i: usize = 0;
    while i < c.aliases.len()
        invariant
            0 <= i <= c.aliases.len(),
            c.name@ != key@,
            forall|l: int| 0 <= l < i ==> c.aliases.deep_view()[l] != key@,
        decreases c.aliases.len() - i,
    {
        proof {
            assert(c.aliases.deep_view()[i as int] == c.aliases[i as int]@);
        }
        if str_eq(c.aliases[i].as_str(), key) {
            proof {
                assert(c.keys()[i + 1] == c.aliases.deep_view()[i as int]);
            }
            return true;
        }
        i = i + 1;
    }
    proof {
        if c.keys().contains(key@) {
            let w = choose|w: int| 0 <= w < c.keys().len() && c.keys()[w] == key@;
            if w == 0 {
                assert(c.keys()[0] == c.name@);
            } else {
                assert(c.keys()[w] == c.aliases.deep_view()[w - 1]);
            }
        }
    }
    false
}

/// In a well-formed registry — one built by `add`, whatever the order
/// the categories were registered in — every name and every alias of a
/// registered category resolves through `find` to exactly that category.
pub proof fn lemma_find_resolves(cats: Seq<Category>, i: int, key: Seq<char>)
    requires
        keys_pairwise_disjoint(cats),
        0 <= i < cats.len(),
        cats[i].keys().contains(key),
    ensures
        spec_find(cats, key) == Some(cats[i]),
    decreases cats.len(),
{
    if cats[0].keys().contains(key) {
        if i != 0 {
            assert(keys_disjoint(cats[0], cats[i]));
            assert(false);
        }
    } else {
        assert(i > 0);
        let rest = cats.drop_first();
        assert forall|a: int, b: int|
            0 <= a < b < rest.len() implies keys_disjoint(
            #[trigger] rest[a],
            #[trigger] rest[b],
        ) by {
            assert(rest[a] == cats[a + 1]);
            assert(rest[b] == cats[b + 1]);
            assert(keys_disjoint(cats[a + 1], cats[b + 1]));
        }
        assert(rest[i - 1] == cats[i]);
        lemma_find_resolves(rest, i - 1, key);
    }
}

} // verus!
