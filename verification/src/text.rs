//! String helpers: equality on string slices and the command-template
//! placeholder substitution used when a task is imported.

use vstd::prelude::*;
use vstd::string::StrSliceExecFns;
use vstd::string::StringExecFns;

verus! {

/// Decides equality of two string slices.
pub fn str_eq(a: &str, b: &str) -> (r: bool)
    ensures
        r == (a@ == b@),
{
    let owned_a: String = a.to_owned();
    let owned_b: String = b.to_owned();
    owned_a == owned_b
}

/// The placeholder token that a command template carries where the task
/// identifier is to be inserted.
pub open spec fn placeholder() -> Seq<char> {
    seq!['{', '{', 't', 'a', 's', 'k', '}', '}']
}

/// The template with every occurrence of the placeholder replaced by `task`,
/// scanning left to right without overlap and without rescanning the
/// inserted text.
pub open spec fn spec_substitute(template: Seq<char>, task: Seq<char>) -> Seq<char>
    decreases template.len(),
{
    if template.len() == 0 {
        Seq::<char>::empty()
    } else if template.len() >= 8 && template.subrange(0, 8) == placeholder() {
        task + spec_substitute(template.skip(8), task)
    } else {
        seq![template[0]] + spec_substitute(template.skip(1), task)
    }
}

/// Whether the placeholder occurs in `s` starting at position `i`.
pub open spec fn match_at(s: Seq<char>, i: int) -> bool {
    &&& 0 <= i
    &&& i + 8 <= s.len()
    &&& s.subrange(i, i + 8) == placeholder()
}

proof fn lemma_substitute_step_match(template: Seq<char>, task: Seq<char>, i: int)
    requires
        match_at(template, i),
    ensures
        spec_substitute(template.skip(i), task) == task + spec_substitute(
            template.skip(i + 8),
            task,
        ),
{
    let rest = template.skip(i);
    assert(rest.subrange(0, 8) =~= template.subrange(i, i + 8));
    assert(rest.skip(8) =~= template.skip(i + 8));
}

proof fn lemma_substitute_step_plain(template: Seq<char>, task: Seq<char>, i: int)
    requires
        0 <= i < template.len(),
        !match_at(template, i),
    ensures
        spec_substitute(template.skip(i), task) == seq![template[i]] + spec_substitute(
            template.skip(i + 1),
            task,
        ),
{
    let rest = template.skip(i);
    if rest.len() >= 8 {
        assert(rest.subrange(0, 8) =~= template.subrange(i, i + 8));
    }
    assert(rest.skip(1) =~= template.skip(i + 1));
}

/// Checks at run time whether the placeholder occurs at position `i`.
fn placeholder_at(template: &str, i: usize, n: usize) -> (r: bool)
    requires
        n == template@.len(),
        i <= n,
    ensures
        r == match_at(template@, i as int),
{
    if n - i < 8 {
        return false;
    }
    let r = template.get_char(i) == '{' && template.get_char(i + 1) == '{' && template.get_char(
        i + 2,
    ) == 't' && template.get_char(i + 3) == 'a' && template.get_char(i + 4) == 's'
        && template.get_char(i + 5) == 'k' && template.get_char(i + 6) == '}' && template.get_char(
        i + 7,
    ) == '}';
    proof {
        if r {
            assert(template@.subrange(i as int, i as int + 8) =~= placeholder());
        } else {
            assert(template@.subrange(i as int, i as int + 8) != placeholder());
        }
    }
    r
}

/// Replaces every occurrence of the placeholder in `template` with `task`.
pub fn substitute(template: &str, task: &str) -> (r: String)
    ensures
        r@ == spec_substitute(template@, task@),
{
    let ghost goal = spec_substitute(template@, task@);
    let n = template.unicode_len();
    let mut result = String::new();
    let mut i: usize = 0;
    let mut seg: usize = 0;
    proof {
        assert(template@.skip(0) =~= template@);
        assert(result@ + template@.subrange(0, 0) + spec_substitute(template@.skip(0), task@)
            =~= goal);
    }
    while i < n
        invariant
            n == template@.len(),
            seg <= i <= n,
            goal == spec_substitute(template@, task@),
            goal == result@ + template@.subrange(seg as int, i as int) + spec_substitute(
                template@.skip(i as int),
                task@,
            ),
        decreases n - i,
    {
        if placeholder_at(template, i, n) {
            result.append(template.substring_char(seg, i));
            result.append(task);
            proof {
                lemma_substitute_step_match(template@, task@, i as int);
                assert(goal =~= result@ + template@.subrange(i as int + 8, i as int + 8)
                    + spec_substitute(template@.skip(i as int + 8), task@));
            }
            i = i + 8;
            seg = i;
        } else {
            proof {
                lemma_substitute_step_plain(template@, task@, i as int);
                assert(goal =~= result@ + template@.subrange(seg as int, i as int + 1)
                    + spec_substitute(template@.skip(i as int + 1), task@));
            }
            i = i + 1;
        }
    }
    result.append(template.substring_char(seg, n));
    proof {
        assert(template@.skip(n as int) =~= Seq::<char>::empty());
        assert(result@ =~= goal);
    }
    result
}

} // verus!
