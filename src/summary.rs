use vstd::prelude::*;
use crate::text::str_equal;

verus! {

/// How many of the layers are drawn in `style`.
pub open spec fn layers_in(styles: Seq<Seq<char>>, style: Seq<char>) -> nat
    decreases styles.len(),
{
    if styles.len() == 0 {
        0
    } else {
        layers_in(styles.drop_last(), style) + if styles.last() == style {
            1nat
        } else {
            0nat
        }
    }
}

/// How many of the layers drawn in `style` are cloud-optimised.
pub open spec fn cogs_in(styles: Seq<Seq<char>>, is_cog: Seq<bool>, style: Seq<char>) -> nat
    decreases styles.len(),
{
    if styles.len() == 0 {
        0
    } else {
        cogs_in(styles.drop_last(), is_cog, style) + if styles.last() == style
            && is_cog[styles.len() - 1] {
            1nat
        } else {
            0nat
        }
    }
}

proof fn lemma_layers_in_bound(styles: Seq<Seq<char>>, is_cog: Seq<bool>, style: Seq<char>)
    ensures
        cogs_in(styles, is_cog, style) <= layers_in(styles, style) <= styles.len(),
    decreases styles.len(),
{
    if styles.len() > 0 {
        lemma_layers_in_bound(styles.drop_last(), is_cog, style);
    }
}

/// One style of the catalogue: how many layers it draws, and how many of those
/// are cloud-optimised.
#[derive(Debug, Clone)]
pub struct StyleSummary {
    pub style: String,
    pub layers: usize,
    pub cogs: usize,
}

impl StyleSummary {
    /// A style some of whose layers are not cloud-optimised renders slowly on
    /// large rasters.
    pub fn needs_cog_warning(&self) -> (r: bool)
        ensures
            r == (self.cogs < self.layers),
    {
        self.cogs < self.layers
    }
}

pub open spec fn string_views(v: Seq<String>) -> Seq<Seq<char>> {
    v.map_values(|s: String| s@)
}

/// Groups the layers by style, given each layer's style and whether it is
/// cloud-optimised: one summary per style.
pub fn summarise_styles(styles: &Vec<String>, is_cog: &Vec<bool>) -> (r: Vec<StyleSummary>)
    requires
        styles@.len() == is_cog@.len(),
    ensures
        forall|k: int|
            0 <= k < r@.len() ==> (#[trigger] r@[k]).layers == layers_in(string_views(styles@), r@[k].style@)
                && r@[k].cogs == cogs_in(string_views(styles@), is_cog@, r@[k].style@)
                && r@[k].layers > 0,
        forall|i: int|
            0 <= i < styles@.len() ==> exists|k: int| 0 <= k < r@.len() && (#[trigger] r@[k]).style@ == (#[trigger] styles@[i])@,
        forall|k1: int, k2: int|
            0 <= k1 < k2 < r@.len() ==> (#[trigger] r@[k1]).style@ != (#[trigger] r@[k2]).style@,
{
    let ghost all = string_views(styles@);
    let mut r: Vec<StyleSummary> = Vec::new();
    let mut i: usize = 0;
    while i < styles.len()
        invariant
            styles@.len() == is_cog@.len(),
            all == string_views(styles@),
            i <= styles@.len(),
            forall|k: int|
                0 <= k < r@.len() ==> (#[trigger] r@[k]).layers == layers_in(all.take(i as int), r@[k].style@)
                    && r@[k].cogs == cogs_in(all.take(i as int), is_cog@, r@[k].style@)
                    && r@[k].layers > 0,
            forall|j: int|
                0 <= j < i ==> exists|k: int| 0 <= k < r@.len() && (#[trigger] r@[k]).style@ == (#[trigger] styles@[j])@,
            forall|k1: int, k2: int|
                0 <= k1 < k2 < r@.len() ==> (#[trigger] r@[k1]).style@ != (#[trigger] r@[k2]).style@,
        decreases styles@.len() - i,
    {
        let s = &styles[i];
        let cog = is_cog[i];
        let ghost pre = all.take(i as int);
        let ghost post = all.take(i as int + 1);
        assert(post.drop_last() =~= pre);
        assert(post.last() == s@);
        let mut k: usize = 0;
        let mut found = false;
        while k < r.len() && !found
            invariant
                forall|q: int| 0 <= q < k ==> (#[trigger] r@[q]).style@ != s@,
                found ==> k < r@.len() && r@[k as int].style@ == s@,
                k <= r@.len(),
            decreases r@.len() - k, if found { 0int } else { 1int },
        {
            if str_equal(r[k].style.as_str(), s.as_str()) {
                found = true;
            } else {
                k = k + 1;
            }
        }
        proof {
            assert forall|t: Seq<char>| #[trigger] layers_in(pre, t) <= i by {
                lemma_layers_in_bound(pre, is_cog@, t);
            }
            assert forall|t: Seq<char>| #[trigger] cogs_in(pre, is_cog@, t) <= layers_in(pre, t) by {
                lemma_layers_in_bound(pre, is_cog@, t);
            }
        }
        let ghost before = r@;
        if found {
            let mut e = r[k].clone();
            e.layers = r[k].layers + 1;
            e.cogs = if cog {
                r[k].cogs + 1
            } else {
                r[k].cogs
            };
            e.style = s.clone();
            r.set(k, e);
        } else {
            r.push(StyleSummary { style: s.clone(), layers: 1, cogs: if cog { 1 } else { 0 } });
        }
        proof {
            assert forall|k2: int| 0 <= k2 < r@.len() implies (#[trigger] r@[k2]).layers == layers_in(
                post,
                r@[k2].style@,
            ) && r@[k2].cogs == cogs_in(post, is_cog@, r@[k2].style@) && r@[k2].layers > 0 by {
                if k2 < before.len() {
                    assert(r@[k2].style@ == before[k2].style@);
                }
                if !found && k2 == before.len() {
                    assert(layers_in(pre, s@) == 0) by {
                        lemma_absent_count(pre, is_cog@, s@);
                        assert forall|j: int| 0 <= j < pre.len() implies pre[j] != s@ by {
                            assert(pre[j] == styles@[j]@);
                            let q = choose|q: int| 0 <= q < before.len() && (#[trigger] before[q]).style@ == styles@[j]@;
                        }
                    }
                    lemma_layers_in_bound(pre, is_cog@, s@);
                }
            }
            assert forall|j: int| 0 <= j < i + 1 implies exists|q: int| 0 <= q < r@.len() && (#[trigger] r@[q]).style@ == (#[trigger] styles@[j])@ by {
                if j < i {
                    let q = choose|q: int| 0 <= q < before.len() && (#[trigger] before[q]).style@ == styles@[j]@;
                    assert(r@[q].style@ == before[q].style@);
                } else if found {
                    assert(r@[k as int].style@ == styles@[j]@);
                } else {
                    assert(r@[before.len() as int].style@ == styles@[j]@);
                }
            }
            assert forall|k1: int, k2: int| 0 <= k1 < k2 < r@.len() implies (#[trigger] r@[k1]).style@ != (#[trigger] r@[k2]).style@ by {
                if k2 < before.len() {
                    assert(r@[k1].style@ == before[k1].style@ && r@[k2].style@ == before[k2].style@);
                } else {
                    assert(r@[k1].style@ == before[k1].style@);
                }
            }
        }
        i = i + 1;
    }
    assert(all.take(styles@.len() as int) =~= all);
    r
}

proof fn lemma_absent_count(styles: Seq<Seq<char>>, is_cog: Seq<bool>, style: Seq<char>)
    requires
        forall|j: int| 0 <= j < styles.len() ==> styles[j] != style,
    ensures
        layers_in(styles, style) == 0,
        cogs_in(styles, is_cog, style) == 0,
    decreases styles.len(),
{
    if styles.len() > 0 {
        lemma_absent_count(styles.drop_last(), is_cog, style);
    }
}

} // verus!
