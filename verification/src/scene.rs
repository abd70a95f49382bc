use vstd::prelude::*;

verus! {

/// A scene: the ordered list of sequence ids that start when it is activated.
#[derive(Clone)]
pub struct Scene {
    pub sequences: Vec<usize>,
}

/// Holds of every id but `x`.
pub open spec fn other_than(x: usize) -> spec_fn(usize) -> bool {
    |y: usize| y != x
}

/// `s` with every occurrence of `x` taken out, the rest in order.
pub open spec fn without(s: Seq<usize>, x: usize) -> Seq<usize> {
    s.filter(other_than(x))
}

/// Whether `v` holds `x`.
pub(crate) fn vec_contains(v: &Vec<usize>, x: usize) -> (b: bool)
    ensures
        b == v@.contains(x),
{
    let mut i: usize = 0;
    while i < v.len()
        invariant
            0 <= i <= v.len(),
            forall|j: int| 0 <= j < i ==> v@[j] != x,
        decreases v.len() - i,
    {
        if v[i] == x {
            return true;
        }
        i = i + 1;
    }
    false
}

impl Scene {
    /// An empty scene.
    pub fn new() -> (s: Scene)
        ensures
            s.sequences@ == Seq::<usize>::empty(),
    {
        let sequences = Vec::new();
        Scene { sequences }
    }

    /// Appends sequence `s` to the scene.
    pub fn add_sequence(&mut self, s: usize)
        ensures
            final(self).sequences@ == old(self).sequences@.push(s),
    {
        self.sequences.push(s);
    }

    /// Removes every occurrence of `seq`, keeping the other ids in order.
    pub fn remove_sequence(&mut self, seq: usize)
        ensures
            final(self).sequences@ == without(old(self).sequences@, seq),
    {
        let ghost old_seq = self.sequences@;
        let mut kept: Vec<usize> = Vec::new();
        let n = self.sequences.len();
        let mut i: usize = 0;
        while i < n
            invariant
                n == old_seq.len(),
                self.sequences@ == old_seq,
                0 <= i <= n,
                kept@ == without(old_seq.take(i as int), seq),
            decreases n - i,
        {
            let x = self.sequences[i];
            proof {
                reveal(Seq::filter);
                assert(old_seq.take(i + 1).drop_last() =~= old_seq.take(i as int));
            }
            if x != seq {
                kept.push(x);
            }
            i = i + 1;
        }
        proof {
            assert(old_seq.take(n as int) =~= old_seq);
        }
        self.sequences = kept;
    }
}

/// Taking `x` out of `s` with `y` appended: `y` stays unless it is `x`.
proof fn lemma_without_push(s: Seq<usize>, y: usize, x: usize)
    ensures
        without(s.push(y), x) == if y != x {
            without(s, x).push(y)
        } else {
            without(s, x)
        },
{
    reveal(Seq::filter);
    assert(s.push(y).drop_last() =~= s);
}

/// Removing an id a second time changes nothing.
pub proof fn lemma_remove_twice(s: Seq<usize>, x: usize)
    ensures
        without(without(s, x), x) == without(s, x),
    decreases s.len(),
{
    if s.len() == 0 {
        reveal(Seq::filter);
    } else {
        let p = s.drop_last();
        assert(p.push(s.last()) =~= s);
        lemma_remove_twice(p, x);
        lemma_without_push(p, s.last(), x);
        if s.last() != x {
            lemma_without_push(without(p, x), s.last(), x);
        }
    }
}

/// Removing two ids gives the same scene in either order.
pub proof fn lemma_removals_commute(s: Seq<usize>, x: usize, y: usize)
    ensures
        without(without(s, x), y) == without(without(s, y), x),
    decreases s.len(),
{
    if s.len() == 0 {
        reveal(Seq::filter);
    } else {
        let p = s.drop_last();
        let l = s.last();
        assert(p.push(l) =~= s);
        lemma_removals_commute(p, x, y);
        lemma_without_push(p, l, x);
        lemma_without_push(p, l, y);
        if l != x {
            lemma_without_push(without(p, x), l, y);
        }
        if l != y {
            lemma_without_push(without(p, y), l, x);
        }
    }
}

/// Removing an id that the scene does not hold changes nothing.
proof fn lemma_remove_absent(s: Seq<usize>, x: usize)
    requires
        !s.contains(x),
    ensures
        without(s, x) == s,
    decreases s.len(),
{
    if s.len() == 0 {
        reveal(Seq::filter);
        assert(without(s, x) =~= s);
    } else {
        let p = s.drop_last();
        assert(p.push(s.last()) =~= s);
        assert(!p.contains(x)) by {
            if p.contains(x) {
                let i = choose|i: int| 0 <= i < p.len() && p[i] == x;
                assert(s[i] == x);
            }
        }
        assert(s.last() != x) by {
            assert(s[s.len() - 1] == s.last());
        }
        lemma_remove_absent(p, x);
        lemma_without_push(p, s.last(), x);
    }
}

/// Removing an id that was just added to a scene that did not hold it
/// gives the scene back.
pub proof fn lemma_remove_undoes_add(s: Seq<usize>, x: usize)
    requires
        !s.contains(x),
    ensures
        without(s.push(x), x) == s,
{
    lemma_without_push(s, x, x);
    lemma_remove_absent(s, x);
}

} // verus!
