//! Tag-based selection of test scenarios: which of a scenario's tags are
//! matched by the configured include list, and whether the scenario runs at
//! all (no exclude may hit, and if includes are given at least one must).

use vstd::prelude::*;

verus! {

/// Is the string (as characters) one of the list?
pub open spec fn has_str(list: Seq<String>, x: Seq<char>) -> bool {
    exists|i: int| 0 <= i < list.len() && list[i]@ == x
}

/// Looks a string up in a list.
#[verifier::loop_isolation(false)]
pub fn list_has(list: &Vec<String>, x: &String) -> (r: bool)
    ensures
        r == has_str(list@, x@),
{
    let mut i: usize = 0;
    while i < list.len()
        invariant
            i <= list@.len(),
            forall|j: int| 0 <= j < i as int ==> (#[trigger] list@[j])@ != x@,
        decreases list@.len() - i,
    {
        if list[i] == *x {
            return true;
        }
        i = i + 1;
    }
    false
}

/// The tags of one test scenario.
#[derive(Debug, PartialEq)]
pub struct TagFilter {
    pub tags: Vec<String>,
}

/// The tags of the scenario that the include or system lists name, in order.
pub open spec fn matched_of(
    tags: Seq<String>,
    system: Seq<String>,
    includes: Seq<String>,
) -> Seq<Seq<char>>
    decreases tags.len(),
{
    if tags.len() == 0 {
        Seq::empty()
    } else {
        let rest = matched_of(tags.drop_first(), system, includes);
        if has_str(system, tags[0]@) || has_str(includes, tags[0]@) {
            seq![tags[0]@] + rest
        } else {
            rest
        }
    }
}

/// Does the scenario run? No tag may be excluded, and when includes are
/// given at least one tag must be matched.
pub open spec fn is_match_of(
    tags: Seq<String>,
    system: Seq<String>,
    includes: Seq<String>,
    excludes: Seq<String>,
) -> bool {
    &&& forall|i: int| 0 <= i < tags.len() ==> !has_str(excludes, (#[trigger] tags[i])@)
    &&& (includes.len() > 0 ==> exists|i: int|
        0 <= i < tags.len() && has_str(includes, (#[trigger] tags[i])@))
}

impl TagFilter {
    /// Which tags the lists match, and whether the scenario runs.
    #[verifier::loop_isolation(false)]
    pub fn matches(
        &self,
        system: &Vec<String>,
        includes: &Vec<String>,
        excludes: &Vec<String>,
    ) -> (r: (Vec<String>, bool))
        ensures
            crate::error::strs_of(r.0@) == matched_of(self.tags@, system@, includes@),
            r.1 == is_match_of(self.tags@, system@, includes@, excludes@),
    {
        broadcast use vstd::seq_lib::group_seq_lib_default;

        let ghost all = self.tags@;
        let mut matched: Vec<String> = Vec::new();
        let mut included: bool = false;
        let mut excluded: bool = false;
        let mut i: usize = 0;
        proof {
            assert(all.skip(0) =~= all);
            assert(crate::error::strs_of(matched@) =~= Seq::<Seq<char>>::empty());
        }
        while i < self.tags.len()
            invariant
                i <= all.len(),
                crate::error::strs_of(matched@) + matched_of(all.skip(i as int), system@,
                    includes@) == matched_of(all, system@, includes@),
                included == exists|j: int|
                    0 <= j < i as int && has_str(includes@, (#[trigger] all[j])@),
                excluded == exists|j: int|
                    0 <= j < i as int && has_str(excludes@, (#[trigger] all[j])@),
            decreases all.len() - i,
        {
            proof {
                assert(all.skip(i as int)[0] == all[i as int]);
                assert(all.skip(i as int).drop_first() =~= all.skip(i as int + 1));
            }
            let tag = &self.tags[i];
            let in_sys = list_has(system, tag);
            let in_inc = list_has(includes, tag);
            if in_sys || in_inc {
                let ghost m0 = crate::error::strs_of(matched@);
                matched.push(tag.clone());
                proof {
                    assert(crate::error::strs_of(matched@) =~= m0.push(all[i as int]@));
                    assert forall|rest: Seq<Seq<char>>|
                        m0.push(all[i as int]@) + rest =~= m0 + (seq![all[i as int]@]
                            + rest) by {}
                }
            }
            if in_inc {
                included = true;
            }
            if list_has(excludes, tag) {
                excluded = true;
            }
            i = i + 1;
        }
        proof {
            assert(all.skip(all.len() as int).len() == 0);
            assert(crate::error::strs_of(matched@) + Seq::<Seq<char>>::empty()
                =~= crate::error::strs_of(matched@));
        }
        let ok = !excluded && (includes.len() == 0 || included);
        (matched, ok)
    }
}

/// What governs a test run: verbosity, the tag lists and the system tags.
#[derive(Debug)]
pub struct TestConfig {
    pub quiet: bool,
    pub verbose: bool,
    pub sys_filter: Vec<String>,
    pub includes: Vec<String>,
    pub excludes: Vec<String>,
}

impl TestConfig {
    /// Which of the scenario's tags this configuration matches, and whether
    /// the scenario runs.
    pub fn matches(&self, filter: &TagFilter) -> (r: (Vec<String>, bool))
        ensures
            crate::error::strs_of(r.0@) == matched_of(
                filter.tags@,
                self.sys_filter@,
                self.includes@,
            ),
            r.1 == is_match_of(filter.tags@, self.sys_filter@, self.includes@, self.excludes@),
    {
        filter.matches(&self.sys_filter, &self.includes, &self.excludes)
    }
}

} // verus!
