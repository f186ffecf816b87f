//! Looking up atom names in the name column of a structure.

use vstd::prelude::*;

verus! {

/// `i` is the first position of `names` that holds `pattern`.
pub open spec fn is_first_position(names: Seq<Seq<char>>, pattern: Seq<char>, i: int) -> bool {
    &&& 0 <= i < names.len()
    &&& names[i] == pattern
    &&& forall|j: int| 0 <= j < i ==> names[j] != pattern
}

/// `pattern` is one of `names`.
pub open spec fn occurs(names: Seq<Seq<char>>, pattern: Seq<char>) -> bool {
    exists|i: int| 0 <= i < names.len() && names[i] == pattern
}

/// A list of names in which a name can be looked up.
pub trait FindString {
    /// The names, in order, each as its characters.
    spec fn names(&self) -> Seq<Seq<char>>;

    /// The position of the first name equal to `pattern`, or `Err(())` where
    /// no name equals it.
    fn at_position(&self, pattern: &str) -> (found: Result<usize, ()>)
        ensures
            match found {
                Ok(i) => is_first_position(self.names(), pattern@, i as int),
                Err(_) => !occurs(self.names(), pattern@),
            },
    ;
}

impl FindString for Vec<String> {
    open spec fn names(&self) -> Seq<Seq<char>> {
        Seq::new(self@.len(), |i: int| self@[i]@)
    }

    fn at_position(&self, pattern: &str) -> (found: Result<usize, ()>) {
        let wanted: String = pattern.to_owned();
        let mut c: usize = 0;
        while c < self.len()
            invariant
                c <= self.len(),
                wanted@ == pattern@,
                forall|j: int| 0 <= j < c ==> self.names()[j] != pattern@,
            decreases self.len() - c,
        {
            if self[c] == wanted {
                return Ok(c);
            }
            c += 1;
        }
        Err(())
    }
}

/// The first position of `names` that holds `pattern`, where one does.
pub open spec fn position_of(names: Seq<Seq<char>>, pattern: Seq<char>) -> int {
    choose|i: int| is_first_position(names, pattern, i)
}

/// The first position in `names` of each name of `query`.
pub open spec fn positions_of(names: Seq<Seq<char>>, query: Seq<Seq<char>>) -> Seq<usize> {
    Seq::new(query.len(), |k: int| position_of(names, query[k]) as usize)
}

/// Position `k` of `query` is the first whose name is none of `names`.
pub open spec fn first_unknown(names: Seq<Seq<char>>, query: Seq<Seq<char>>, k: int) -> bool {
    &&& 0 <= k < query.len()
    &&& !occurs(names, query[k])
    &&& forall|j: int| 0 <= j < k ==> occurs(names, #[trigger] query[j])
}

/// Every name of `query` is one of `names`.
pub open spec fn all_known(names: Seq<Seq<char>>, query: Seq<Seq<char>>) -> bool {
    forall|k: int| 0 <= k < query.len() ==> occurs(names, #[trigger] query[k])
}

/// A name has one first position.
pub proof fn lemma_first_position_unique(names: Seq<Seq<char>>, pattern: Seq<char>, i: int)
    requires
        is_first_position(names, pattern, i),
    ensures
        occurs(names, pattern),
        position_of(names, pattern) == i,
{
    let p = position_of(names, pattern);
    assert(is_first_position(names, pattern, p));
    if p < i {
        assert(names[p] != pattern);
    }
    if i < p {
        assert(names[i] != pattern);
    }
}

/// Looks up each name of `query_names` among `atomnames`, or says which is
/// the first that is not there.
pub fn indices_of_names(atomnames: &Vec<String>, query_names: &Vec<String>) -> (r: Result<
    Vec<usize>,
    usize,
>)
    ensures
        match r {
            Ok(indices) => {
                &&& all_known(atomnames.names(), query_names.names())
                &&& indices@ == positions_of(atomnames.names(), query_names.names())
            },
            Err(k) => first_unknown(atomnames.names(), query_names.names(), k as int),
        },
{
    let mut indices: Vec<usize> = Vec::with_capacity(query_names.len());
    let mut k: usize = 0;
    while k < query_names.len()
        invariant
            k <= query_names@.len(),
            indices@.len() == k,
            forall|j: int| 0 <= j < k ==> occurs(atomnames.names(), #[trigger] query_names.names()[j]),
            forall|j: int|
                0 <= j < k ==> indices@[j] == position_of(
                    atomnames.names(),
                    query_names.names()[j],
                ),
        decreases query_names@.len() - k,
    {
        match atomnames.at_position(query_names[k].as_str()) {
            Ok(a) => {
                proof {
                    lemma_first_position_unique(
                        atomnames.names(),
                        query_names.names()[k as int],
                        a as int,
                    );
                }
                indices.push(a);
            },
            Err(_) => {
                return Err(k);
            },
        }
        k += 1;
    }
    assert(indices@ =~= positions_of(atomnames.names(), query_names.names()));
    Ok(indices)
}

} // verus!
