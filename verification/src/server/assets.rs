//! The files of the user interface.
use vstd::prelude::*;

use crate::outside::codec::{guess_media_type, media_type_of};
use crate::text::{chars_of, same_text, string_of, trim_start, trimmed_start, views, CharClass};

verus! {

/// The names of the files that the server carries.
pub struct Assets {
    pub names: Vec<String>,
}

/// Where a name first stands among names.
pub open spec fn place_of(names: Seq<Seq<char>>, name: Seq<char>) -> Option<int>
    decreases names.len(),
{
    if names.len() == 0 {
        None
    } else {
        match place_of(names.drop_last(), name) {
            Some(i) => Some(i),
            None => if names.last() == name {
                Some(names.len() - 1)
            } else {
                None
            },
        }
    }
}

/// The file that is served for a path: the one it names, else the start page.
pub open spec fn served(names: Seq<Seq<char>>, path: Seq<char>) -> Option<int> {
    let name = trim_start(path, CharClass::Slash);
    if name.len() == 0 || place_of(names, name) is None {
        place_of(names, "index.html"@)
    } else {
        place_of(names, name)
    }
}

impl Assets {
    /// Where the file with the name stands.
    pub fn find(&self, name: &str) -> (r: Option<usize>)
        ensures
            match r {
                Some(i) => i < self.names@.len() && place_of(views(self.names@), name@) == Some(
                    i as int,
                ),
                None => place_of(views(self.names@), name@) is None,
            },
    {
        let ghost all = views(self.names@);
        let mut i: usize = 0;
        proof {
            assert(all.take(0) =~= Seq::empty());
        }
        while i < self.names.len()
            invariant
                i <= self.names@.len(),
                all == views(self.names@),
                place_of(all.take(i as int), name@) is None,
            decreases self.names@.len() - i,
        {
            proof {
                assert(all.take(i + 1).drop_last() =~= all.take(i as int));
                assert(all.take(i + 1).last() == self.names@[i as int]@);
            }
            if same_text(self.names[i].as_str(), name) {
                proof {
                    lemma_place_stays(all, name@, i + 1);
                }
                return Some(i);
            }
            i = i + 1;
        }
        proof {
            assert(all.take(i as int) =~= all);
        }
        None
    }

    /// The file that is served for a path; `None` where there is not even a start page.
    pub fn route(&self, path: &str) -> (r: Option<usize>)
        ensures
            match r {
                Some(i) => i < self.names@.len() && served(views(self.names@), path@) == Some(
                    i as int,
                ),
                None => served(views(self.names@), path@) is None,
            },
    {
        let name = string_of(&trimmed_start(&chars_of(path), CharClass::Slash));
        if !name.as_str().is_empty() {
            if let Some(i) = self.find(name.as_str()) {
                return Some(i);
            }
        }
        self.find("index.html")
    }
}

proof fn lemma_place_stays(names: Seq<Seq<char>>, name: Seq<char>, i: int)
    requires
        0 <= i <= names.len(),
        place_of(names.take(i), name) is Some,
    ensures
        place_of(names, name) == place_of(names.take(i), name),
    decreases names.len() - i,
{
    if i < names.len() {
        assert(names.take(i + 1).drop_last() =~= names.take(i));
        lemma_place_stays(names, name, i + 1);
    } else {
        assert(names.take(i) =~= names);
    }
}

/// The media type of a file, by its name.
pub fn asset_media_type(name: &str) -> (r: String)
    ensures
        r@ == media_type_of(name@),
{
    guess_media_type(name)
}

/// Whatever is asked for, the start page answers where nothing else does.
pub proof fn law_start_page_answers(names: Seq<Seq<char>>, path: Seq<char>)
    requires
        names.contains("index.html"@),
    ensures
        served(names, path) is Some,
{
    lemma_place_of_contained(names, "index.html"@);
}

proof fn lemma_place_of_contained(names: Seq<Seq<char>>, name: Seq<char>)
    requires
        names.contains(name),
    ensures
        place_of(names, name) is Some,
    decreases names.len(),
{
    let k = choose|k: int| 0 <= k < names.len() && names[k] == name;
    if k < names.len() - 1 {
        assert(names.drop_last()[k] == name);
        lemma_place_of_contained(names.drop_last(), name);
    }
}

} // verus!
