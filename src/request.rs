//! The user's query, and the checks made on it against the schedule source.
use vstd::prelude::*;
use vstd::string::*;
use crate::models::{Department, DepartmentsList, Lesson, Schedule};
use crate::text::{same_text, texts, trim_text, trimmed};

verus! {

/// What a user asks for: a group's calendar, narrowed to some subgroups.
#[derive(Debug, Clone)]
pub struct Request {
    pub department: String,
    /// Education form: `full` or `extramural`.
    pub form: String,
    pub group: String,
    /// Requested subgroup labels; empty means all of them.
    pub subgroups: Vec<String>,
    /// Whether lessons of the translator section are wanted.
    pub translator: bool,
}

/// Why a request was refused.
#[derive(Debug)]
pub struct RequestError(pub String);

impl RequestError {
    pub fn message(&self) -> (r: &str)
        ensures
            r@ == self.0@,
    {
        self.0.as_str()
    }
}

/// `a` orders before `b`, or equals it, as `Ord for String` orders them: lexicographically by
/// character code.
pub open spec fn text_le(a: Seq<char>, b: Seq<char>) -> bool
    decreases a.len(),
{
    if a.len() == 0 {
        true
    } else if b.len() == 0 {
        false
    } else if a[0] != b[0] {
        (a[0] as u32) < (b[0] as u32)
    } else {
        text_le(a.drop_first(), b.drop_first())
    }
}

proof fn lemma_text_le_antisymmetric(a: Seq<char>, b: Seq<char>)
    requires
        text_le(a, b),
        text_le(b, a),
    ensures
        a == b,
    decreases a.len(),
{
    if a.len() > 0 && b.len() > 0 {
        assert(a[0] == b[0]);
        lemma_text_le_antisymmetric(a.drop_first(), b.drop_first());
        assert(a =~= b) by {
            assert forall|i: int| 0 <= i < a.len() implies a[i] == b[i] by {
                if i > 0 {
                    assert(a[i] == a.drop_first()[i - 1]);
                    assert(b[i] == b.drop_first()[i - 1]);
                }
            }
        }
    } else {
        assert(a =~= b);
    }
}

/// Relies on `slice::sort_unstable` under `Ord for String`, which orders strings by their UTF-8
/// bytes, that is by character code: the same strings, in ascending order.
#[verifier::external_body]
fn sort_texts(v: &mut Vec<String>)
    ensures
        final(v)@.to_multiset() == old(v)@.to_multiset(),
        forall|i: int, j: int|
            0 <= i < j < final(v)@.len() ==> text_le(#[trigger] final(v)@[i]@, #[trigger] final(v)@[j]@),
{
    v.sort_unstable();
}

/// The non-empty trimmed subgroup labels of the first `n` lessons, in order.
pub open spec fn labels_upto(ls: Seq<Lesson>, n: int) -> Seq<Seq<char>>
    decreases n,
{
    if n <= 0 {
        Seq::empty()
    } else {
        let prev = labels_upto(ls, n - 1);
        let t = trimmed(ls[n - 1].sub_group@);
        if t.len() > 0 {
            prev.push(t)
        } else {
            prev
        }
    }
}

/// The non-empty trimmed subgroup labels of the lessons, in order.
pub open spec fn labels(ls: Seq<Lesson>) -> Seq<Seq<char>> {
    labels_upto(ls, ls.len() as int)
}

/// The subgroups that a schedule mentions: its distinct non-empty trimmed labels, in ascending
/// order.
pub fn find_subgroups(schedule: &Schedule) -> (r: Vec<String>)
    ensures
        forall|x: Seq<char>| texts(r@).contains(x) <==> labels(schedule.lessons@).contains(x),
        forall|i: int, j: int|
            0 <= i < j < r@.len() ==> text_le(r@[i]@, r@[j]@) && r@[i]@ != r@[j]@,
{
    let ls = &schedule.lessons;
    let mut found: Vec<String> = Vec::new();
    let mut n: usize = 0;
    assert(texts(found@) =~= labels_upto(ls@, 0));
    while n < ls.len()
        invariant
            n <= ls@.len(),
            texts(found@) == labels_upto(ls@, n as int),
        decreases ls@.len() - n,
    {
        let t = trim_text(ls[n].sub_group.as_str());
        if t.unicode_len() > 0 {
            let ghost before = found@;
            found.push(String::from_str(t));
            assert(texts(found@) =~= texts(before).push(t@));
        }
        n += 1;
    }
    let ghost unsorted = found@;
    sort_texts(&mut found);
    let sorted = found;
    proof {
        assert forall|x: Seq<char>| texts(sorted@).contains(x) <==> texts(unsorted).contains(x) by {
            if texts(sorted@).contains(x) {
                let k = choose|k: int| 0 <= k < sorted@.len() && texts(sorted@)[k] == x;
                vstd::seq_lib::to_multiset_contains(sorted@, sorted@[k]);
                vstd::seq_lib::to_multiset_contains(unsorted, sorted@[k]);
                let j = choose|j: int| 0 <= j < unsorted.len() && unsorted[j] == sorted@[k];
                assert(texts(unsorted)[j] == x);
            }
            if texts(unsorted).contains(x) {
                let j = choose|j: int| 0 <= j < unsorted.len() && texts(unsorted)[j] == x;
                vstd::seq_lib::to_multiset_contains(sorted@, unsorted[j]);
                vstd::seq_lib::to_multiset_contains(unsorted, unsorted[j]);
                let k = choose|k: int| 0 <= k < sorted@.len() && sorted@[k] == unsorted[j];
                assert(texts(sorted@)[k] == x);
            }
        }
    }
    let mut out: Vec<String> = Vec::new();
    let mut i: usize = 0;
    while i < sorted.len()
        invariant
            i <= sorted@.len(),
            forall|a: int, b: int|
                0 <= a < b < sorted@.len() ==> text_le(#[trigger] sorted@[a]@, #[trigger] sorted@[b]@),
            forall|a: int, b: int|
                0 <= a < b < out@.len() ==> text_le(out@[a]@, out@[b]@) && out@[a]@ != out@[b]@,
            i > 0 ==> out@.len() > 0 && out@.last()@ == sorted@[i - 1]@,
            i == 0 ==> out@.len() == 0,
            forall|a: int|
                0 <= a < out@.len() ==> exists|j: int| 0 <= j < i && #[trigger] out@[a]@ == sorted@[j]@,
            forall|j: int| 0 <= j < i ==> texts(out@).contains(#[trigger] sorted@[j]@),
        decreases sorted@.len() - i,
    {
        let fresh = out.len() == 0 || !(out[out.len() - 1] == sorted[i]);
        let ghost before = out@;
        if fresh {
            let s = sorted[i].clone();
            out.push(s);
            proof {
                let x = sorted@[i as int]@;
                assert forall|a: int| 0 <= a < before.len() implies text_le(before[a]@, x)
                    && before[a]@ != x by {
                    let j = choose|j: int| 0 <= j < i && before[a]@ == sorted@[j]@;
                    assert(text_le(sorted@[j]@, sorted@[i as int]@));
                    if before[a]@ == x {
                        let last = before.last()@;
                        assert(last == sorted@[i - 1]@);
                        if a < before.len() - 1 {
                            assert(text_le(before[a]@, before[before.len() - 1]@));
                        }
                        if i - 1 > 0 {
                            assert(text_le(sorted@[i - 1]@, sorted@[i as int]@));
                        }
                        assert(text_le(sorted@[i - 1]@, sorted@[i as int]@));
                        lemma_text_le_antisymmetric(last, x);
                    }
                }
                assert forall|a: int| 0 <= a < out@.len() implies exists|j: int|
                    0 <= j < i + 1 && #[trigger] out@[a]@ == sorted@[j]@ by {
                    if a < before.len() {
                        assert(out@[a] == before[a]);
                    } else {
                        assert(out@[a]@ == sorted@[i as int]@);
                    }
                }
                assert forall|j: int| 0 <= j < i + 1 implies texts(out@).contains(
                    #[trigger] sorted@[j]@,
                ) by {
                    if j < i {
                        let k = choose|k: int| 0 <= k < before.len() && texts(before)[k] == sorted@[j]@;
                        assert(texts(out@)[k] == sorted@[j]@);
                    } else {
                        assert(texts(out@)[before.len() as int] == sorted@[j]@);
                    }
                }
            }
        } else {
            proof {
                assert forall|a: int| 0 <= a < out@.len() implies exists|j: int|
                    0 <= j < i + 1 && #[trigger] out@[a]@ == sorted@[j]@ by {
                    let j = choose|j: int| 0 <= j < i && out@[a]@ == sorted@[j]@;
                }
                assert forall|j: int| 0 <= j < i + 1 implies texts(out@).contains(
                    #[trigger] sorted@[j]@,
                ) by {
                    if j == i {
                        assert(texts(out@)[out@.len() - 1] == sorted@[j]@);
                    }
                }
            }
        }
        i += 1;
    }
    proof {
        assert forall|x: Seq<char>| texts(out@).contains(x) <==> texts(sorted@).contains(x) by {
            if texts(out@).contains(x) {
                let a = choose|a: int| 0 <= a < out@.len() && texts(out@)[a] == x;
                let j = choose|j: int| 0 <= j < i && out@[a]@ == sorted@[j]@;
                assert(texts(sorted@)[j] == x);
            }
            if texts(sorted@).contains(x) {
                let j = choose|j: int| 0 <= j < sorted@.len() && texts(sorted@)[j] == x;
                assert(texts(out@).contains(sorted@[j]@));
            }
        }
    }
    out
}

/// Whether the source lists a department with this URL name.
pub open spec fn department_known(deps: Seq<Department>, d: Seq<char>) -> bool {
    exists|i: int| 0 <= i < deps.len() && #[trigger] deps[i].url@ == d
}

/// Whether the education form is `full` or `extramural`.
pub open spec fn form_known(f: Seq<char>) -> bool {
    f == "full"@ || f == "extramural"@
}

/// Checks the department of a request against the departments that the source lists, then its
/// education form.
pub fn check_department_and_form(req: &Request, departments: &DepartmentsList) -> (r: Result<
    (),
    RequestError,
>)
    ensures
        r is Ok <==> department_known(departments.departments_list@, req.department@) && form_known(
            req.form@,
        ),
        !department_known(departments.departments_list@, req.department@) ==> (r matches Err(e)
            && e.0@ == "Incorrect department"@),
        department_known(departments.departments_list@, req.department@) && !form_known(req.form@)
            ==> (r matches Err(e) && e.0@
            == "Incorrect education form. Should be \"full\" or \"extramural\""@),
{
    let deps = &departments.departments_list;
    let mut known = false;
    let mut i: usize = 0;
    while i < deps.len()
        invariant
            i <= deps@.len(),
            known == exists|k: int| 0 <= k < i && #[trigger] deps@[k].url@ == req.department@,
        decreases deps@.len() - i,
    {
        if deps[i].url == req.department {
            known = true;
        }
        i += 1;
    }
    if !known {
        return Err(RequestError(String::from_str("Incorrect department")));
    }
    if !(same_text(req.form.as_str(), "full") || same_text(req.form.as_str(), "extramural")) {
        return Err(
            RequestError(
                String::from_str("Incorrect education form. Should be \"full\" or \"extramural\""),
            ),
        );
    }
    Ok(())
}

/// Checks that every requested subgroup is one that the schedule mentions.
pub fn check_subgroups(req: &Request, schedule: &Schedule) -> (r: Result<(), RequestError>)
    ensures
        r is Ok <==> forall|i: int|
            0 <= i < req.subgroups@.len() ==> labels(schedule.lessons@).contains(
                #[trigger] req.subgroups@[i]@,
            ),
        r matches Err(e) ==> e.0@ == "Incorrect subgroup(s)"@,
{
    let available = find_subgroups(schedule);
    let mut i: usize = 0;
    while i < req.subgroups.len()
        invariant
            i <= req.subgroups@.len(),
            forall|x: Seq<char>|
                texts(available@).contains(x) <==> labels(schedule.lessons@).contains(x),
            forall|k: int|
                0 <= k < i ==> labels(schedule.lessons@).contains(#[trigger] req.subgroups@[k]@),
        decreases req.subgroups@.len() - i,
    {
        let mut found = false;
        let mut j: usize = 0;
        while j < available.len()
            invariant
                i < req.subgroups@.len(),
                j <= available@.len(),
                found == exists|k: int| 0 <= k < j && #[trigger] available@[k]@ == req.subgroups@[i as int]@,
            decreases available@.len() - j,
        {
            if available[j] == req.subgroups[i] {
                found = true;
            }
            j += 1;
        }
        if !found {
            proof {
                if texts(available@).contains(req.subgroups@[i as int]@) {
                    let k = choose|k: int| 0 <= k < available@.len() && texts(available@)[k] == req.subgroups@[i as int]@;
                    assert(available@[k]@ == req.subgroups@[i as int]@);
                }
            }
            return Err(RequestError(String::from_str("Incorrect subgroup(s)")));
        }
        proof {
            let k = choose|k: int| 0 <= k < j && available@[k]@ == req.subgroups@[i as int]@;
            assert(texts(available@)[k] == req.subgroups@[i as int]@);
            assert(texts(available@).contains(req.subgroups@[i as int]@));
            assert(labels(schedule.lessons@).contains(req.subgroups@[i as int]@));
        }
        i += 1;
    }
    Ok(())
}

} // verus!
