use vstd::prelude::*;

verus! {

// The dump version registry: the datasets the catalog ships and the last
// version of each that was applied locally. It is bookkeeping for display;
// it does not gate a new synchronization.

/// The answer of the catalog for one dataset: where to fetch it and which
/// version that is.
#[derive(Debug, Clone)]
pub struct CsvUrlResponse {
    pub url: String,
    pub version: String,
}

/// One dataset of the catalog: its name, its location, its version.
#[derive(Debug, Clone)]
pub struct DumpInfo {
    pub name: String,
    pub url: String,
    pub version: String,
}

/// The names of the five datasets, in the order they are applied.
pub fn dump_dataset_names() -> (r: Vec<String>)
    ensures
        r@.len() == 5,
        r@[0]@ == "covers"@,
        r@[1]@ == "websites"@,
        r@[2]@ == "platforms"@,
        r@[3]@ == "games"@,
        r@[4]@ == "popularity_primitives"@,
{
    let mut r: Vec<String> = Vec::new();
    r.push(String::from_str("covers"));
    r.push(String::from_str("websites"));
    r.push(String::from_str("platforms"));
    r.push(String::from_str("games"));
    r.push(String::from_str("popularity_primitives"));
    r
}

/// The registry as it stands before any dump was ever applied: every
/// dataset is listed with an empty version.
pub fn default_dump_versions() -> (r: Vec<(String, String)>)
    ensures
        r@.len() == 5,
        forall|i: int| 0 <= i < 5 ==> (#[trigger] r@[i]).1@ == Seq::<char>::empty(),
        r@[0].0@ == "covers"@,
        r@[1].0@ == "websites"@,
        r@[2].0@ == "platforms"@,
        r@[3].0@ == "games"@,
        r@[4].0@ == "popularity_primitives"@,
{
    let mut r: Vec<(String, String)> = Vec::new();
    r.push((String::from_str("covers"), String::new()));
    r.push((String::from_str("websites"), String::new()));
    r.push((String::from_str("platforms"), String::new()));
    r.push((String::from_str("games"), String::new()));
    r.push((String::from_str("popularity_primitives"), String::new()));
    r
}

/// The version recorded for `name`, if the registry lists it.
pub fn recorded_version<'a>(versions: &'a Vec<(String, String)>, name: &String) -> (r: Option<
    &'a String,
>)
    ensures
        match r {
            Some(v) => exists|i: int|
                0 <= i < versions@.len() && (#[trigger] versions@[i]).0@ == name@
                    && versions@[i].1@ == v@,
            None => forall|i: int|
                0 <= i < versions@.len() ==> (#[trigger] versions@[i]).0@ != name@,
        },
{
    let mut i: usize = 0;
    while i < versions.len()
        invariant
            i <= versions@.len(),
            forall|j: int| 0 <= j < i ==> (#[trigger] versions@[j]).0@ != name@,
        decreases versions@.len() - i,
    {
        if versions[i].0 == *name {
            proof {
                assert(versions@[i as int].0@ == name@);
            }
            return Some(&versions[i].1);
        }
        i += 1;
    }
    None
}

} // verus!
