use vstd::prelude::*;

verus! {

/// The seven hierarchy levels of a documentation hit, from the page root
/// (`lvl0`, always present) down to the deepest heading.
#[derive(Debug)]
pub struct SearchResultHierarchy {
    pub lvl0: String,
    pub lvl1: Option<String>,
    pub lvl2: Option<String>,
    pub lvl3: Option<String>,
    pub lvl4: Option<String>,
    pub lvl5: Option<String>,
    pub lvl6: Option<String>,
}

/// One documentation hit as the search index returns it.
#[derive(Debug)]
pub struct SearchResult {
    pub object_id: String,
    pub result_type: String,
    pub url: String,
    pub hierarchy: SearchResultHierarchy,
    pub content: Option<String>,
}

/// The text of an optional level.
pub open spec fn level_view(level: Option<String>) -> Option<Seq<char>> {
    match level {
        Some(s) => Some(s@),
        None => None,
    }
}

/// The values of the levels that are present, in level order.
pub open spec fn present_levels(levels: Seq<Option<Seq<char>>>) -> Seq<Seq<char>>
    decreases levels.len(),
{
    if levels.len() == 0 {
        Seq::empty()
    } else {
        let rest = present_levels(levels.drop_last());
        match levels.last() {
            Some(v) => rest.push(v),
            None => rest,
        }
    }
}

impl SearchResultHierarchy {
    /// The seven levels, `lvl0` first.
    pub open spec fn levels(self) -> Seq<Option<Seq<char>>> {
        seq![
            Some(self.lvl0@),
            level_view(self.lvl1),
            level_view(self.lvl2),
            level_view(self.lvl3),
            level_view(self.lvl4),
            level_view(self.lvl5),
            level_view(self.lvl6),
        ]
    }

    /// The values of the present levels, root first.
    pub open spec fn present_values(self) -> Seq<Seq<char>> {
        present_levels(self.levels())
    }

    /// The deepest present value.
    pub open spec fn deepest(self) -> Seq<char> {
        self.present_values().last()
    }

    /// Level `k` of the hierarchy is the field `lvlk` itself, for each of the
    /// seven levels: `lvl0` always present, the others present exactly when set.
    pub proof fn law_levels_are_the_fields(self)
        ensures
            self.levels().len() == 7,
            self.levels()[0] == Some(self.lvl0@),
            match self.lvl1 {
                Some(s) => self.levels()[1] == Some(s@),
                None => self.levels()[1] is None,
            },
            match self.lvl2 {
                Some(s) => self.levels()[2] == Some(s@),
                None => self.levels()[2] is None,
            },
            match self.lvl3 {
                Some(s) => self.levels()[3] == Some(s@),
                None => self.levels()[3] is None,
            },
            match self.lvl4 {
                Some(s) => self.levels()[4] == Some(s@),
                None => self.levels()[4] is None,
            },
            match self.lvl5 {
                Some(s) => self.levels()[5] == Some(s@),
                None => self.levels()[5] is None,
            },
            match self.lvl6 {
                Some(s) => self.levels()[6] == Some(s@),
                None => self.levels()[6] is None,
            },
    {
    }

    /// The present values are `lvl0` followed by each set field among `lvl1` to
    /// `lvl6`, in field order, each once.
    pub proof fn law_present_values_in_field_order(self)
        ensures
            self.present_values() == seq![self.lvl0@] + (match self.lvl1 { Some(s) => seq![s@], None => Seq::<Seq<char>>::empty() }) + (match self.lvl2 { Some(s) => seq![s@], None => Seq::<Seq<char>>::empty() }) + (match self.lvl3 { Some(s) => seq![s@], None => Seq::<Seq<char>>::empty() }) + (match self.lvl4 { Some(s) => seq![s@], None => Seq::<Seq<char>>::empty() }) + (match self.lvl5 { Some(s) => seq![s@], None => Seq::<Seq<char>>::empty() }) + (match self.lvl6 { Some(s) => seq![s@], None => Seq::<Seq<char>>::empty() }),
    {
        let l = self.levels();
        lemma_present_levels_step(l, 0);
        lemma_present_levels_step(l, 1);
        lemma_present_levels_step(l, 2);
        lemma_present_levels_step(l, 3);
        lemma_present_levels_step(l, 4);
        lemma_present_levels_step(l, 5);
        lemma_present_levels_step(l, 6);
        assert(l.take(0) =~= Seq::<Option<Seq<char>>>::empty());
        assert(l.take(7) =~= l);
        assert(self.present_values() =~= seq![self.lvl0@] + (match self.lvl1 { Some(s) => seq![s@], None => Seq::<Seq<char>>::empty() }) + (match self.lvl2 { Some(s) => seq![s@], None => Seq::<Seq<char>>::empty() }) + (match self.lvl3 { Some(s) => seq![s@], None => Seq::<Seq<char>>::empty() }) + (match self.lvl4 { Some(s) => seq![s@], None => Seq::<Seq<char>>::empty() }) + (match self.lvl5 { Some(s) => seq![s@], None => Seq::<Seq<char>>::empty() }) + (match self.lvl6 { Some(s) => seq![s@], None => Seq::<Seq<char>>::empty() }));
    }

    /// The deepest value is the highest-numbered set field, or `lvl0` when no
    /// other level is set.
    pub proof fn law_deepest_is_highest_set_field(self)
        ensures
            self.deepest() == (match self.lvl6 { Some(s) => s@, None => match self.lvl5 { Some(s) => s@, None => match self.lvl4 { Some(s) => s@, None => match self.lvl3 { Some(s) => s@, None => match self.lvl2 { Some(s) => s@, None => match self.lvl1 { Some(s) => s@, None => self.lvl0@ } } } } } }),
    {
        self.law_present_values_in_field_order();
    }

    /// There is always at least one present value: the root.
    pub proof fn lemma_root_present(self)
        ensures
            self.present_values().len() >= 1,
            self.present_values()[0] == self.lvl0@,
    {
        reveal_with_fuel(present_levels, 8);
        let l = self.levels();
        assert(l.take(1) =~= seq![Some(self.lvl0@)]);
        lemma_present_levels_prefix(l, 1);
        assert(present_levels(l.take(1)) =~= seq![self.lvl0@]);
    }

    /// The root value.
    pub fn first(&self) -> (res: &str)
        ensures
            res@ == self.lvl0@,
            res@ == self.present_values()[0],
    {
        proof {
            self.lemma_root_present();
        }
        self.lvl0.as_str()
    }

    /// The value of level `level`, if that level exists and is present.
    pub fn level(&self, level: usize) -> (res: Option<&str>)
        ensures
            level < 7 ==> match res {
                Some(v) => self.levels()[level as int] == Some(v@),
                None => self.levels()[level as int].is_none(),
            },
            level >= 7 ==> res.is_none(),
    {
        let slot = match level {
            0 => return Some(self.lvl0.as_str()),
            1 => &self.lvl1,
            2 => &self.lvl2,
            3 => &self.lvl3,
            4 => &self.lvl4,
            5 => &self.lvl5,
            6 => &self.lvl6,
            _ => return None,
        };
        match slot {
            Some(v) => Some(v.as_str()),
            None => None,
        }
    }

    /// The values of the present levels, root first.
    pub fn values(&self) -> (res: Vec<&str>)
        ensures
            res@.len() == self.present_values().len(),
            forall|i: int| 0 <= i < res@.len() ==> #[trigger] res@[i]@ == self.present_values()[i],
    {
        let mut res: Vec<&str> = Vec::new();
        let mut i: usize = 0;
        while i < 7
            invariant
                i <= 7,
                res@.len() == present_levels(self.levels().take(i as int)).len(),
                forall|j: int| 0 <= j < res@.len() ==> #[trigger] res@[j]@ == present_levels(self.levels().take(i as int))[j],
            decreases 7 - i,
        {
            let ghost before = res@;
            let lv = self.level(i);
            proof {
                assert(self.levels().take(i + 1).drop_last() =~= self.levels().take(i as int));
            }
            match lv {
                Some(v) => res.push(v),
                None => {},
            }
            i = i + 1;
        }
        proof {
            assert(self.levels().take(7) =~= self.levels());
        }
        res
    }

    /// The deepest present value.
    pub fn last(&self) -> (res: &str)
        ensures
            res@ == self.deepest(),
    {
        let values = self.values();
        proof {
            self.lemma_root_present();
        }
        values[values.len() - 1]
    }
}

/// One more level adds its value, when present, after the earlier ones.
pub proof fn lemma_present_levels_step(levels: Seq<Option<Seq<char>>>, k: int)
    requires
        0 <= k < levels.len(),
    ensures
        present_levels(levels.take(k + 1)) == present_levels(levels.take(k)) + match levels[k] {
            Some(v) => seq![v],
            None => Seq::<Seq<char>>::empty(),
        },
{
    assert(levels.take(k + 1).drop_last() =~= levels.take(k));
    assert(levels.take(k + 1).last() == levels[k]);
    let rest = present_levels(levels.take(k));
    match levels[k] {
        Some(v) => {
            assert(rest.push(v) =~= rest + seq![v]);
        },
        None => {
            assert(rest + Seq::<Seq<char>>::empty() =~= rest);
        },
    }
}

/// The present values of a prefix of the levels are a prefix of the present values.
pub proof fn lemma_present_levels_prefix(levels: Seq<Option<Seq<char>>>, n: int)
    requires
        0 <= n <= levels.len(),
    ensures
        present_levels(levels.take(n)).len() <= present_levels(levels).len(),
        present_levels(levels).take(present_levels(levels.take(n)).len() as int) == present_levels(levels.take(n)),
    decreases levels.len(),
{
    if n == levels.len() {
        assert(levels.take(n) =~= levels);
        assert(present_levels(levels).take(present_levels(levels).len() as int) =~= present_levels(levels));
    } else {
        assert(levels.drop_last().take(n) =~= levels.take(n));
        lemma_present_levels_prefix(levels.drop_last(), n);
        let a = present_levels(levels.take(n));
        let b = present_levels(levels.drop_last());
        match levels.last() {
            Some(v) => {
                assert(b.push(v).take(a.len() as int) =~= b.take(a.len() as int));
            },
            None => {},
        }
    }
}

} // verus!
