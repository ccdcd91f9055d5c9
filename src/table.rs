use vstd::prelude::*;

verus! {

/// No two entries share a name.
pub open spec fn names_unique<T>(s: Seq<(Seq<char>, T)>) -> bool {
    forall|i: int, j: int| 0 <= i < s.len() && 0 <= j < s.len() && i != j ==> s[i].0 != s[j].0
}

/// Some entry is named `name`.
pub open spec fn has_name<T>(s: Seq<(Seq<char>, T)>, name: Seq<char>) -> bool {
    exists|i: int| 0 <= i < s.len() && s[i].0 == name
}

/// Position of the entry named `name`, where there is one.
pub open spec fn index_of<T>(s: Seq<(Seq<char>, T)>, name: Seq<char>) -> int {
    choose|i: int| 0 <= i < s.len() && s[i].0 == name
}

/// Binds `name` to `t`: in place where `name` is present, else appended.
pub open spec fn insert_model<T>(s: Seq<(Seq<char>, T)>, name: Seq<char>, t: T) -> Seq<
    (Seq<char>, T),
> {
    if has_name(s, name) {
        s.update(index_of(s, name), (name, t))
    } else {
        s.push((name, t))
    }
}

/// Drops the entry named `name`, where there is one.
pub open spec fn remove_model<T>(s: Seq<(Seq<char>, T)>, name: Seq<char>) -> Seq<(Seq<char>, T)> {
    if has_name(s, name) {
        s.remove(index_of(s, name))
    } else {
        s
    }
}

pub open spec fn table_view<T>(v: Seq<(String, T)>) -> Seq<(Seq<char>, T)> {
    v.map_values(|p: (String, T)| (p.0@, p.1))
}

/// Values keyed by name, in the order their names were first inserted.
pub struct NameTable<T> {
    entries: Vec<(String, T)>,
}

impl<T> View for NameTable<T> {
    type V = Seq<(Seq<char>, T)>;

    closed spec fn view(&self) -> Seq<(Seq<char>, T)> {
        table_view(self.entries@)
    }
}

/// Inserting keeps names distinct, and `name` is then bound to `t` alone.
pub proof fn lemma_insert_binds<T>(s: Seq<(Seq<char>, T)>, name: Seq<char>, t: T)
    requires
        names_unique(s),
    ensures
        names_unique(insert_model(s, name, t)),
        has_name(insert_model(s, name, t), name),
        insert_model(s, name, t)[index_of(insert_model(s, name, t), name)] == (name, t),
        forall|n: Seq<char>| n != name ==> (has_name(insert_model(s, name, t), n) <==> has_name(s, n)),
{
    let r = insert_model(s, name, t);
    if has_name(s, name) {
        let i = index_of(s, name);
        assert(r[i].0 == name);
    } else {
        assert(r[s.len() as int].0 == name);
    }
    let j = index_of(r, name);
    assert(r[j] == (name, t)) by {
        if has_name(s, name) {
            let i = index_of(s, name);
            if j != i {
                assert(r[j] == s[j]);
            }
        } else {
            if j != s.len() {
                assert(r[j] == s[j]);
            }
        }
    };
    assert forall|n: Seq<char>| n != name implies (has_name(r, n) <==> has_name(s, n)) by {
        if has_name(s, n) {
            let i = index_of(s, n);
            assert(r[i].0 == n);
        }
        if has_name(r, n) {
            let i = index_of(r, n);
            assert(r[i] == s[i]);
        }
    };
}

/// Removing keeps names distinct and leaves no entry named `name`.
pub proof fn lemma_remove_drops<T>(s: Seq<(Seq<char>, T)>, name: Seq<char>)
    requires
        names_unique(s),
    ensures
        names_unique(remove_model(s, name)),
        !has_name(remove_model(s, name), name),
        forall|n: Seq<char>| n != name ==> (has_name(remove_model(s, name), n) <==> has_name(s, n)),
{
    let r = remove_model(s, name);
    if has_name(s, name) {
        let i = index_of(s, name);
        assert forall|a: int, b: int| 0 <= a < r.len() && 0 <= b < r.len() && a != b implies r[a].0
            != r[b].0 by {
            let sa = if a < i { a } else { a + 1 };
            let sb = if b < i { b } else { b + 1 };
            assert(r[a] == s[sa]);
            assert(r[b] == s[sb]);
        };
        assert forall|n: Seq<char>| (n == name || has_name(s, n)) implies (has_name(r, n) <==> n != name) by {
            if has_name(r, n) {
                let a = index_of(r, n);
                let sa = if a < i { a } else { a + 1 };
                assert(r[a] == s[sa]);
            }
            if n != name {
                let k = index_of(s, n);
                assert(k != i);
                let a = if k < i { k } else { k - 1 };
                assert(r[a] == s[k]);
            }
        };
        assert forall|n: Seq<char>| n != name && has_name(r, n) implies has_name(s, n) by {
            let a = index_of(r, n);
            let sa = if a < i { a } else { a + 1 };
            assert(r[a] == s[sa]);
        };
    }
}

/// Drops the entries named in `names`, in order.
pub open spec fn remove_all<T>(s: Seq<(Seq<char>, T)>, names: Seq<Seq<char>>) -> Seq<
    (Seq<char>, T),
>
    decreases names.len(),
{
    if names.len() == 0 {
        s
    } else {
        remove_model(remove_all(s, names.drop_last()), names.last())
    }
}

/// After removing `names`, exactly the other names stay, still distinct.
pub proof fn lemma_remove_all<T>(s: Seq<(Seq<char>, T)>, names: Seq<Seq<char>>)
    requires
        names_unique(s),
    ensures
        names_unique(remove_all(s, names)),
        forall|n: Seq<char>| #[trigger] has_name(remove_all(s, names), n) <==> (has_name(s, n) && !names.contains(n)),
    decreases names.len(),
{
    if names.len() > 0 {
        let d = names.drop_last();
        lemma_remove_all(s, d);
        lemma_remove_drops(remove_all(s, d), names.last());
        assert forall|n: Seq<char>| #[trigger] has_name(remove_all(s, names), n) <==> (has_name(s, n) && !names.contains(n)) by {
            if names.contains(n) && n != names.last() {
                let i = choose|i: int| 0 <= i < names.len() && names[i] == n;
                assert(d[i] == n);
            }
            if d.contains(n) {
                let i = choose|i: int| 0 <= i < d.len() && d[i] == n;
                assert(names[i] == n);
            }
            assert(names[names.len() - 1] == names.last());
            assert(remove_all(s, names) == remove_model(remove_all(s, d), names.last()));
            if n != names.last() {
                assert(has_name(remove_all(s, names), n) == has_name(remove_all(s, d), n));
            }
        };
    }
}

impl<T> NameTable<T> {
    pub open spec fn wf(&self) -> bool {
        names_unique(self@)
    }

    /// An empty table.
    pub fn new() -> (r: Self)
        ensures
            r.wf(),
            r@ == Seq::<(Seq<char>, T)>::empty(),
    {
        let r = NameTable { entries: Vec::new() };
        assert(r@ =~= Seq::<(Seq<char>, T)>::empty());
        r
    }

    /// Position of the entry named `name`.
    pub fn find(&self, name: &str) -> (r: Option<usize>)
        requires
            self.wf(),
        ensures
            match r {
                Some(i) => has_name(self@, name@) && i as int == index_of(self@, name@) && i
                    < self@.len(),
                None => !has_name(self@, name@),
            },
    {
        let wanted = name.to_owned();
        let mut i: usize = 0;
        while i < self.entries.len()
            invariant
                self.wf(),
                wanted@ == name@,
                i <= self@.len(),
                self@.len() == self.entries@.len(),
                forall|j: int| 0 <= j < i ==> self@[j].0 != name@,
            decreases self@.len() - i,
        {
            if self.entries[i].0 == wanted {
                assert(self@[i as int].0 == name@);
                let ghost c = index_of(self@, name@);
                assert(c == i as int);
                return Some(i);
            }
            i = i + 1;
        }
        None
    }

    /// The value bound to `name`.
    pub fn get(&self, name: &str) -> (r: Option<&T>)
        requires
            self.wf(),
        ensures
            match r {
                Some(t) => has_name(self@, name@) && *t == self@[index_of(self@, name@)].1,
                None => !has_name(self@, name@),
            },
    {
        match self.find(name) {
            Some(i) => Some(&self.entries[i].1),
            None => None,
        }
    }

    /// Binds `name` to `t` and returns the value it replaced.
    pub fn insert(&mut self, name: String, t: T) -> (r: Option<T>)
        requires
            old(self).wf(),
        ensures
            final(self).wf(),
            final(self)@ == insert_model(old(self)@, name@, t),
            r == (if has_name(old(self)@, name@) {
                Some(old(self)@[index_of(old(self)@, name@)].1)
            } else {
                None::<T>
            }),
    {
        let ghost s = self@;
        let ghost nv = name@;
        proof {
            lemma_insert_binds(s, nv, t);
        }
        match self.find(name.as_str()) {
            Some(i) => {
                let prev = self.entries.remove(i);
                self.entries.insert(i, (name, t));
                assert(self@ =~= s.update(i as int, (nv, t)));
                Some(prev.1)
            },
            None => {
                self.entries.push((name, t));
                assert(self@ =~= s.push((nv, t)));
                None
            },
        }
    }

    /// Drops the entry named `name` and returns its value; absent names are
    /// left alone.
    pub fn remove(&mut self, name: &str) -> (r: Option<T>)
        requires
            old(self).wf(),
        ensures
            final(self).wf(),
            final(self)@ == remove_model(old(self)@, name@),
            r == (if has_name(old(self)@, name@) {
                Some(old(self)@[index_of(old(self)@, name@)].1)
            } else {
                None::<T>
            }),
    {
        let ghost s = self@;
        proof {
            lemma_remove_drops(s, name@);
        }
        match self.find(name) {
            Some(i) => {
                let prev = self.entries.remove(i);
                assert(self@ =~= s.remove(i as int));
                Some(prev.1)
            },
            None => None,
        }
    }

    /// Number of entries.
    pub fn len(&self) -> (r: usize)
        ensures
            r == self@.len(),
    {
        self.entries.len()
    }

    /// The names, in table order.
    pub fn names(&self) -> (r: Vec<String>)
        ensures
            r@.len() == self@.len(),
            forall|i: int| 0 <= i < r@.len() ==> #[trigger] r@[i]@ == self@[i].0,
    {
        let mut r: Vec<String> = Vec::new();
        let mut i: usize = 0;
        while i < self.entries.len()
            invariant
                i <= self@.len(),
                self@.len() == self.entries@.len(),
                r@.len() == i,
                forall|j: int| 0 <= j < i ==> #[trigger] r@[j]@ == self@[j].0,
            decreases self@.len() - i,
        {
            r.push(self.entries[i].0.clone());
            i = i + 1;
        }
        r
    }
}

impl<T: Clone> NameTable<T> {
    /// A copy of the entries, in table order, each value cloned.
    pub fn cloned_entries(&self) -> (r: Vec<(String, T)>)
        ensures
            r@.len() == self@.len(),
            forall|i: int|
                0 <= i < r@.len() ==> #[trigger] r@[i].0@ == self@[i].0 && cloned(
                    self@[i].1,
                    r@[i].1,
                ),
    {
        let mut r: Vec<(String, T)> = Vec::new();
        let mut i: usize = 0;
        while i < self.entries.len()
            invariant
                i <= self@.len(),
                self@.len() == self.entries@.len(),
                r@.len() == i,
                forall|j: int|
                    0 <= j < i ==> #[trigger] r@[j].0@ == self@[j].0 && cloned(self@[j].1, r@[j].1),
            decreases self@.len() - i,
        {
            let name = self.entries[i].0.clone();
            let t = self.entries[i].1.clone();
            r.push((name, t));
            i = i + 1;
        }
        r
    }
}

impl<T: Copy> NameTable<T> {
    /// A copy of the entries, in table order.
    pub fn copied_entries(&self) -> (r: Vec<(String, T)>)
        ensures
            table_view(r@) == self@,
    {
        let mut r: Vec<(String, T)> = Vec::new();
        let mut i: usize = 0;
        while i < self.entries.len()
            invariant
                i <= self@.len(),
                self@.len() == self.entries@.len(),
                table_view(r@) == self@.subrange(0, i as int),
            decreases self@.len() - i,
        {
            let name = self.entries[i].0.clone();
            let t = self.entries[i].1;
            let ghost before = r@;
            r.push((name, t));
            assert(table_view(r@) =~= table_view(before).push(self@[i as int]));
            assert(self@.subrange(0, i as int + 1) =~= self@.subrange(0, i as int).push(self@[i as int]));
            i = i + 1;
        }
        assert(self@.subrange(0, self@.len() as int) =~= self@);
        r
    }
}

} // verus!
