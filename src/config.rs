use vstd::prelude::*;
use vstd::string::*;

verus! {

/// A command to run when a user arrives at a named place.
#[derive(Clone, Debug, PartialEq, Eq)]
pub struct Hook {
    pub place: String,
    pub command: String,
}

/// A tracked person, as configured.
#[derive(Clone, Debug, PartialEq, Eq)]
pub struct User {
    pub first_name: String,
    pub last_name: String,
    pub avatar: String,
}

/// The directories of the two snapshot stores.
#[derive(Debug)]
pub struct FileLocations {
    pub location: std::path::PathBuf,
    pub data: std::path::PathBuf,
}

/// The index of the first hook for the place named `place`.
pub fn hook_for_place(hooks: &Vec<Hook>, place: &String) -> (r: Option<usize>)
    ensures
        r matches Some(i) ==> i < hooks@.len() && hooks@[i as int].place@ == place@ && forall|j: int|
            0 <= j < i ==> (#[trigger] hooks@[j]).place@ != place@,
        r is None ==> forall|j: int| 0 <= j < hooks@.len() ==> (#[trigger] hooks@[j]).place@ != place@,
{
    let mut i: usize = 0;
    while i < hooks.len()
        invariant
            i <= hooks@.len(),
            forall|j: int| 0 <= j < i ==> (#[trigger] hooks@[j]).place@ != place@,
        decreases hooks@.len() - i,
    {
        if hooks[i].place == *place {
            return Some(i);
        }
        i = i + 1;
    }
    None
}

/// The pieces of `s` between single spaces, as splitting on `" "` gives them:
/// empty pieces included, and one piece for text without a space.
pub open spec fn split_on_space(s: Seq<char>) -> Seq<Seq<char>>
    decreases s.len(),
{
    if s.len() == 0 {
        seq![Seq::empty()]
    } else if s.last() == ' ' {
        split_on_space(s.drop_last()).push(Seq::empty())
    } else {
        let p = split_on_space(s.drop_last());
        p.update(p.len() - 1, p.last().push(s.last()))
    }
}

proof fn lemma_split_nonempty(s: Seq<char>)
    ensures
        split_on_space(s).len() > 0,
    decreases s.len(),
{
    if s.len() > 0 {
        lemma_split_nonempty(s.drop_last());
    }
}

pub open spec fn views(v: Seq<String>) -> Seq<Seq<char>> {
    v.map_values(|p: String| p@)
}

impl Hook {
    /// The program and its arguments: the command split on spaces.
    pub fn command_parts(&self) -> (r: Vec<String>)
        ensures
            views(r@) == split_on_space(self.command@),
    {
        let s = self.command.as_str();
        let len = s.unicode_len();
        let mut parts: Vec<String> = Vec::new();
        let mut start: usize = 0;
        let mut i: usize = 0;
        proof {
            assert(views(parts@) =~= Seq::<Seq<char>>::empty());
            assert(s@.subrange(0, 0) =~= Seq::<char>::empty());
            assert(views(parts@).push(s@.subrange(0, 0)) =~= split_on_space(s@.subrange(0, 0)));
        }
        while i < len
            invariant
                start <= i <= len,
                len == s@.len(),
                s@ == self.command@,
                views(parts@).push(s@.subrange(start as int, i as int)) == split_on_space(
                    s@.subrange(0, i as int),
                ),
            decreases len - i,
        {
            let ghost prev = s@.subrange(0, i as int);
            let ghost next = s@.subrange(0, i + 1);
            proof {
                assert(next.drop_last() =~= prev);
                lemma_split_nonempty(prev);
            }
            if s.get_char(i) == ' ' {
                let piece = String::from_str(s.substring_char(start, i));
                let ghost before = parts@;
                parts.push(piece);
                proof {
                    assert(views(parts@) =~= views(before).push(s@.subrange(start as int, i as int)));
                }
                start = i + 1;
                proof {
                    assert(s@.subrange(start as int, i + 1) =~= Seq::<char>::empty());
                }
            } else {
                proof {
                    assert(s@.subrange(start as int, i + 1) =~= s@.subrange(start as int, i as int).push(
                        s@[i as int],
                    ));
                    let p = split_on_space(prev);
                    assert(views(parts@).push(s@.subrange(start as int, i + 1)) =~= p.update(
                        p.len() - 1,
                        p.last().push(next.last()),
                    ));
                }
            }
            i = i + 1;
        }
        let last = String::from_str(s.substring_char(start, len));
        let ghost before = parts@;
        parts.push(last);
        proof {
            assert(views(parts@) =~= views(before).push(s@.subrange(start as int, len as int)));
            assert(s@.subrange(0, len as int) =~= s@);
        }
        parts
    }
}

} // verus!
