//! Headers: an ordered mapping from a header's name to the ordered list of
//! its values. A name may be given several times; each value is kept, in
//! arrival order, under the one entry of its name.

use vstd::prelude::*;

verus! {

/// The contents of a vector of strings, as a sequence of character sequences.
pub open spec fn texts(v: Seq<String>) -> Seq<Seq<char>> {
    v.map_values(|s: String| s@)
}

/// One header name with its values.
#[derive(Debug)]
pub struct Header {
    pub name: String,
    pub values: Vec<String>,
}

impl View for Header {
    type V = (Seq<char>, Seq<Seq<char>>);

    open spec fn view(&self) -> (Seq<char>, Seq<Seq<char>>) {
        (self.name@, texts(self.values@))
    }
}

/// `i` is the first entry of `h` with the name `name`.
pub open spec fn is_first_named(
    h: Seq<(Seq<char>, Seq<Seq<char>>)>,
    name: Seq<char>,
    i: int,
) -> bool {
    0 <= i < h.len() && h[i].0 == name && forall|j: int| 0 <= j < i ==> h[j].0 != name
}

/// The index of the first entry of `h` with the name `name`, where there is one.
pub open spec fn first_named(h: Seq<(Seq<char>, Seq<Seq<char>>)>, name: Seq<char>) -> int {
    choose|i: int| is_first_named(h, name, i)
}

/// No entry of `h` has the name `name`.
pub open spec fn lacks_name(h: Seq<(Seq<char>, Seq<Seq<char>>)>, name: Seq<char>) -> bool {
    forall|j: int| 0 <= j < h.len() ==> h[j].0 != name
}

/// The values listed under `name`, if `h` has an entry of that name.
pub open spec fn values_of(h: Seq<(Seq<char>, Seq<Seq<char>>)>, name: Seq<char>) -> Option<
    Seq<Seq<char>>,
> {
    let i = first_named(h, name);
    if is_first_named(h, name, i) {
        Some(h[i].1)
    } else {
        None
    }
}

/// `h` after one more value has arrived for `name`: the value joins the end of
/// the entry of that name, or, where there is none, begins a new last entry.
pub open spec fn with_value(
    h: Seq<(Seq<char>, Seq<Seq<char>>)>,
    name: Seq<char>,
    value: Seq<char>,
) -> Seq<(Seq<char>, Seq<Seq<char>>)> {
    let i = first_named(h, name);
    if is_first_named(h, name, i) {
        h.update(i, (name, h[i].1.push(value)))
    } else {
        h.push((name, seq![value]))
    }
}

/// No two entries of `h` share a name.
pub open spec fn names_distinct(h: Seq<(Seq<char>, Seq<Seq<char>>)>) -> bool {
    forall|i: int, j: int| 0 <= i < j < h.len() ==> h[i].0 != h[j].0
}

/// The first entry of a name is the only candidate for `first_named`.
pub proof fn lemma_first_named(h: Seq<(Seq<char>, Seq<Seq<char>>)>, name: Seq<char>, i: int)
    requires
        is_first_named(h, name, i),
    ensures
        first_named(h, name) == i,
{
    let c = first_named(h, name);
    assert(is_first_named(h, name, c));
    if c < i {
        assert(h[c].0 != name);
    }
    if i < c {
        assert(h[i].0 != name);
    }
}

/// Adding a value keeps the names distinct.
pub proof fn lemma_with_value_distinct(
    h: Seq<(Seq<char>, Seq<Seq<char>>)>,
    name: Seq<char>,
    value: Seq<char>,
)
    requires
        names_distinct(h),
    ensures
        names_distinct(with_value(h, name, value)),
{
    let i = first_named(h, name);
    if is_first_named(h, name, i) {
    } else {
        assert forall|j: int| 0 <= j < h.len() implies h[j].0 != name by {
            if h[j].0 == name {
                lemma_has_first(h, name, j);
            }
        }
    }
}

/// Where some entry up to `j` has the name, one of them is the first.
pub proof fn lemma_has_first(h: Seq<(Seq<char>, Seq<Seq<char>>)>, name: Seq<char>, j: int)
    requires
        0 <= j < h.len(),
        h[j].0 == name,
    ensures
        is_first_named(h, name, first_named(h, name)),
    decreases j,
{
    if forall|k: int| 0 <= k < j ==> h[k].0 != name {
        assert(is_first_named(h, name, j));
    } else {
        let k = choose|k: int| 0 <= k < j && h[k].0 == name;
        lemma_has_first(h, name, k);
    }
}

/// An ordered collection of headers.
#[derive(Debug)]
pub struct Headers {
    entries: Vec<Header>,
}

impl View for Headers {
    type V = Seq<(Seq<char>, Seq<Seq<char>>)>;

    closed spec fn view(&self) -> Seq<(Seq<char>, Seq<Seq<char>>)> {
        self.entries@.map_values(|e: Header| e@)
    }
}

impl Headers {
    /// Headers with no entry.
    pub fn new() -> (h: Headers)
        ensures
            h@ == Seq::<(Seq<char>, Seq<Seq<char>>)>::empty(),
    {
        let h = Headers { entries: Vec::new() };
        assert(h@ =~= Seq::<(Seq<char>, Seq<Seq<char>>)>::empty());
        h
    }

    /// The number of distinct entries.
    pub fn len(&self) -> (n: usize)
        ensures
            n == self@.len(),
    {
        self.entries.len()
    }

    /// The name of the entry at `i`.
    pub fn name_at(&self, i: usize) -> (name: &String)
        requires
            i < self@.len(),
        ensures
            name@ == self@[i as int].0,
    {
        &self.entries[i].name
    }

    /// The values of the entry at `i`, in arrival order.
    pub fn values_at(&self, i: usize) -> (values: &Vec<String>)
        requires
            i < self@.len(),
        ensures
            texts(values@) == self@[i as int].1,
    {
        &self.entries[i].values
    }

    /// The index of the entry named `name`.
    pub fn position(&self, name: &String) -> (at: Option<usize>)
        ensures
            match at {
                Some(i) => is_first_named(self@, name@, i as int),
                None => lacks_name(self@, name@),
            },
    {
        let mut i: usize = 0;
        while i < self.entries.len()
            invariant
                i <= self.entries@.len(),
                forall|j: int| 0 <= j < i ==> self@[j].0 != name@,
            decreases self.entries@.len() - i,
        {
            if self.entries[i].name == *name {
                return Some(i);
            }
            i += 1;
        }
        None
    }

    /// The values listed under `name`, in arrival order.
    pub fn get(&self, name: &str) -> (values: Option<&Vec<String>>)
        ensures
            match values {
                Some(v) => values_of(self@, name@) == Some(texts(v@)),
                None => values_of(self@, name@).is_none(),
            },
    {
        let owned = name.to_owned();
        match self.position(&owned) {
            Some(i) => {
                proof {
                    lemma_first_named(self@, name@, i as int);
                }
                Some(&self.entries[i].values)
            },
            None => None,
        }
    }

    /// Records one more value for `name`.
    pub fn append(&mut self, name: String, value: String)
        ensures
            final(self)@ == with_value(old(self)@, name@, value@),
    {
        match self.position(&name) {
            Some(i) => {
                proof {
                    lemma_first_named(self@, name@, i as int);
                }
                let mut entry = self.entries.remove(i);
                entry.values.push(value);
                assert(texts(entry.values@) =~= old(self)@[i as int].1.push(value@));
                self.entries.insert(i, entry);
                assert(self@ =~= with_value(old(self)@, name@, value@));
            },
            None => {
                let mut values: Vec<String> = Vec::new();
                values.push(value);
                assert(texts(values@) =~= seq![value@]);
                self.entries.push(Header { name, values });
                assert(self@ =~= with_value(old(self)@, name@, value@));
            },
        }
    }
}

} // verus!
