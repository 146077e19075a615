//! Saved recipes: steps that name the steps they depend on.
use crate::text;
use vstd::prelude::*;

verus! {

/// How many steps a saved recipe may have.
pub const MAX_RECIPE_STEPS: usize = 32;

pub struct RecipeStep {
    pub id: String,
    pub depends_on: Vec<String>,
}

/// Whether a step has the identifier.
pub open spec fn known(steps: Seq<RecipeStep>, id: Seq<char>) -> bool {
    exists|j: int| 0 <= j < steps.len() && (#[trigger] steps[j]).id@ == id
}

/// Every step has an identifier of its own, and it is not empty.
pub open spec fn well_named(steps: Seq<RecipeStep>) -> bool {
    &&& forall|i: int| 0 <= i < steps.len() ==> (#[trigger] steps[i]).id@.len() > 0
    &&& forall|i: int, j: int|
        0 <= i < j < steps.len() ==> (#[trigger] steps[i]).id@ != (#[trigger] steps[j]).id@
}

/// Step `i` depends on step `j`.
pub open spec fn depends(steps: Seq<RecipeStep>, i: int, j: int) -> bool {
    exists|k: int|
        0 <= k < steps[i].depends_on@.len() && (#[trigger] steps[i].depends_on@[k])@
            == steps[j].id@
}

/// The steps can be put in an order in which each comes after all that it
/// depends on: `rank` is the place of a step in it.
pub open spec fn orders(steps: Seq<RecipeStep>, rank: spec_fn(int) -> nat) -> bool {
    forall|i: int, j: int|
        0 <= i < steps.len() && 0 <= j < steps.len() && #[trigger] depends(steps, i, j) ==> rank(j)
            < rank(i)
}

pub open spec fn acyclic(steps: Seq<RecipeStep>) -> bool {
    exists|rank: spec_fn(int) -> nat| #[trigger] orders(steps, rank)
}

/// What is wrong with the dependencies of one step, from the `k`th on.
pub open spec fn bad_dependency(steps: Seq<RecipeStep>, step: RecipeStep, k: int) -> Option<Seq<char>>
    decreases step.depends_on@.len() - k,
{
    if k < 0 || k >= step.depends_on@.len() {
        None
    } else if !known(steps, step.depends_on@[k]@) {
        Some(
            "Saved recipe step '"@ + step.id@ + "' references unknown dependency '"@
                + step.depends_on@[k]@ + "'"@,
        )
    } else if step.depends_on@[k]@ == step.id@ {
        Some("Saved recipe step '"@ + step.id@ + "' depends on itself"@)
    } else {
        bad_dependency(steps, step, k + 1)
    }
}

/// What is wrong with the dependencies of the steps, from the `i`th on.
pub open spec fn bad_dependencies(steps: Seq<RecipeStep>, i: int) -> Option<Seq<char>>
    decreases steps.len() - i,
{
    if i < 0 || i >= steps.len() {
        None
    } else {
        match bad_dependency(steps, steps[i], 0) {
            Some(e) => Some(e),
            None => bad_dependencies(steps, i + 1),
        }
    }
}

/// Why a recipe cannot be saved; `None` if it can.
pub open spec fn defect(steps: Seq<RecipeStep>) -> Option<Seq<char>> {
    if steps.len() == 0 {
        Some("Saved recipe contains no steps"@)
    } else if steps.len() > MAX_RECIPE_STEPS {
        Some("Saved recipe exceeds the 32-step limit"@)
    } else if !well_named(steps) {
        Some("Saved recipe contains empty or duplicate step IDs"@)
    } else if bad_dependencies(steps, 0) is Some {
        bad_dependencies(steps, 0)
    } else if !acyclic(steps) {
        Some("Saved recipe contains a dependency cycle"@)
    } else {
        None
    }
}

fn find_step(steps: &Vec<RecipeStep>, id: &str) -> (r: Option<usize>)
    ensures
        match r {
            Some(j) => j < steps@.len() && steps@[j as int].id@ == id@,
            None => !known(steps@, id@),
        },
{
    let mut j: usize = 0;
    while j < steps.len()
        invariant
            j <= steps@.len(),
            forall|m: int| 0 <= m < j ==> (#[trigger] steps@[m]).id@ != id@,
        decreases steps@.len() - j,
    {
        if text::eq(steps[j].id.as_str(), id) {
            return Some(j);
        }
        j = j + 1;
    }
    None
}

fn is_well_named(steps: &Vec<RecipeStep>) -> (r: bool)
    ensures
        r == well_named(steps@),
{
    let mut i: usize = 0;
    while i < steps.len()
        invariant
            i <= steps@.len(),
            forall|a: int| 0 <= a < i ==> (#[trigger] steps@[a]).id@.len() > 0,
            forall|a: int, b: int|
                0 <= a < b < i ==> (#[trigger] steps@[a]).id@ != (#[trigger] steps@[b]).id@,
        decreases steps@.len() - i,
    {
        if steps[i].id.as_str().is_empty() {
            assert(steps@[i as int].id@.len() == 0);
            return false;
        }
        let mut j: usize = 0;
        while j < i
            invariant
                j <= i < steps@.len(),
                forall|a: int| 0 <= a < j ==> (#[trigger] steps@[a]).id@ != steps@[i as int].id@,
            decreases i - j,
        {
            if text::eq(steps[j].id.as_str(), steps[i].id.as_str()) {
                assert(steps@[j as int].id@ == steps@[i as int].id@);
                return false;
            }
            j = j + 1;
        }
        i = i + 1;
    }
    true
}

fn check_dependency(steps: &Vec<RecipeStep>, step: &RecipeStep) -> (r: Option<String>)
    ensures
        text::opt_view(r) == bad_dependency(steps@, *step, 0),
{
    let mut k: usize = 0;
    while k < step.depends_on.len()
        invariant
            k <= step.depends_on@.len(),
            bad_dependency(steps@, *step, 0) == bad_dependency(steps@, *step, k as int),
        decreases step.depends_on@.len() - k,
    {
        let name = step.depends_on[k].as_str();
        if find_step(steps, name).is_none() {
            let mut message = "Saved recipe step '".to_owned();
            message.append(step.id.as_str());
            message.append("' references unknown dependency '");
            message.append(name);
            message.append("'");
            return Some(message);
        }
        if text::eq(name, step.id.as_str()) {
            let mut message = "Saved recipe step '".to_owned();
            message.append(step.id.as_str());
            message.append("' depends on itself");
            return Some(message);
        }
        k = k + 1;
    }
    None
}

fn check_dependencies(steps: &Vec<RecipeStep>) -> (r: Option<String>)
    ensures
        text::opt_view(r) == bad_dependencies(steps@, 0),
{
    let mut i: usize = 0;
    while i < steps.len()
        invariant
            i <= steps@.len(),
            bad_dependencies(steps@, 0) == bad_dependencies(steps@, i as int),
        decreases steps@.len() - i,
    {
        if let Some(message) = check_dependency(steps, &steps[i]) {
            return Some(message);
        }
        i = i + 1;
    }
    None
}

proof fn sound_dependency(steps: Seq<RecipeStep>, step: RecipeStep, k: int)
    requires
        0 <= k,
        bad_dependency(steps, step, k) is None,
    ensures
        forall|m: int|
            k <= m < step.depends_on@.len() ==> known(steps, (#[trigger] step.depends_on@[m])@)
                && step.depends_on@[m]@ != step.id@,
    decreases step.depends_on@.len() - k,
{
    if k < step.depends_on@.len() {
        sound_dependency(steps, step, k + 1);
    }
}

proof fn sound_dependencies(steps: Seq<RecipeStep>, i: int)
    requires
        0 <= i,
        bad_dependencies(steps, i) is None,
    ensures
        forall|m: int, k: int|
            i <= m < steps.len() && 0 <= k < steps[m].depends_on@.len() ==> known(
                steps,
                (#[trigger] steps[m].depends_on@[k])@,
            ),
    decreases steps.len() - i,
{
    if i < steps.len() {
        sound_dependency(steps, steps[i], 0);
        sound_dependencies(steps, i + 1);
    }
}

/// Everything that step `i` depends on is done.
spec fn ready(steps: Seq<RecipeStep>, done: Seq<bool>, i: int) -> bool {
    forall|j: int|
        0 <= j < steps.len() && #[trigger] depends(steps, i, j) ==> done[j]
}

fn is_ready(steps: &Vec<RecipeStep>, done: &Vec<bool>, i: usize) -> (r: bool)
    requires
        i < steps@.len(),
        done@.len() == steps@.len(),
        well_named(steps@),
        bad_dependencies(steps@, 0) is None,
    ensures
        r == ready(steps@, done@, i as int),
{
    proof {
        sound_dependencies(steps@, 0);
    }
    let mut k: usize = 0;
    while k < steps[i].depends_on.len()
        invariant
            i < steps@.len(),
            k <= steps@[i as int].depends_on@.len(),
            done@.len() == steps@.len(),
            well_named(steps@),
            forall|m: int, n: int|
                0 <= m < steps@.len() && 0 <= n < steps@[m].depends_on@.len() ==> known(
                    steps@,
                    (#[trigger] steps@[m].depends_on@[n])@,
                ),
            forall|n: int, j: int|
                0 <= n < k && 0 <= j < steps@.len() && (
                #[trigger] steps@[i as int].depends_on@[n])@ == (#[trigger] steps@[j]).id@
                    ==> done@[j],
        decreases steps@[i as int].depends_on@.len() - k,
    {
        assert(known(steps@, steps@[i as int].depends_on@[k as int]@));
        match find_step(steps, steps[i].depends_on[k].as_str()) {
            Some(j) => {
                if !done[j] {
                    assert(depends(steps@, i as int, j as int));
                    return false;
                }
                assert forall|m: int|
                    0 <= m < steps@.len() && steps@[i as int].depends_on@[k as int]@ == (
                    #[trigger] steps@[m]).id@ implies done@[m] by {
                    if m < j {
                        assert(steps@[m].id@ != steps@[j as int].id@);
                    } else if j < m {
                        assert(steps@[j as int].id@ != steps@[m].id@);
                    }
                }
            },
            None => {
                return false;
            },
        }
        k = k + 1;
    }
    assert forall|j: int| 0 <= j < steps@.len() && #[trigger] depends(
        steps@,
        i as int,
        j,
    ) implies done@[j] by {
        let n = choose|n: int|
            0 <= n < steps@[i as int].depends_on@.len() && (
            #[trigger] steps@[i as int].depends_on@[n])@ == steps@[j].id@;
        assert(steps@[i as int].depends_on@[n]@ == steps@[j].id@);
    }
    true
}

/// How many steps are not done.
spec fn left(done: Seq<bool>) -> nat
    decreases done.len(),
{
    if done.len() == 0 {
        0
    } else {
        left(done.drop_last()) + if done.last() {
            0nat
        } else {
            1nat
        }
    }
}

proof fn one_less_left(done: Seq<bool>, i: int)
    requires
        0 <= i < done.len(),
        !done[i],
    ensures
        left(done) == left(done.update(i, true)) + 1,
    decreases done.len(),
{
    let after = done.update(i, true);
    if i == done.len() - 1 {
        assert(after.drop_last() =~= done.drop_last());
    } else {
        assert(after.drop_last() =~= done.drop_last().update(i, true));
        one_less_left(done.drop_last(), i);
    }
}

proof fn all_left(done: Seq<bool>)
    requires
        forall|i: int| 0 <= i < done.len() ==> !(#[trigger] done[i]),
    ensures
        left(done) == done.len(),
    decreases done.len(),
{
    if done.len() > 0 {
        all_left(done.drop_last());
    }
}

/// Each step that is done came after all that it depends on.
spec fn in_order(steps: Seq<RecipeStep>, done: Seq<bool>, rank: Seq<usize>) -> bool {
    forall|i: int, j: int|
        0 <= i < steps.len() && 0 <= j < steps.len() && done[i] && #[trigger] depends(steps, i, j)
            ==> done[j] && rank[j] < rank[i]
}

/// A step that is never ready lies on a cycle or behind one, so that there is no
/// order of the steps.
proof fn stuck_means_cyclic(
    steps: Seq<RecipeStep>,
    done: Seq<bool>,
    rank: spec_fn(int) -> nat,
    i: int,
)
    requires
        0 <= i < steps.len(),
        done.len() == steps.len(),
        !done[i],
        forall|m: int| 0 <= m < steps.len() && !done[m] ==> !(#[trigger] ready(steps, done, m)),
    ensures
        !orders(steps, rank),
    decreases rank(i),
{
    if orders(steps, rank) {
        assert(!ready(steps, done, i));
        let j = choose|j: int| 0 <= j < steps.len() && #[trigger] depends(steps, i, j) && !done[j];
        assert(rank(j) < rank(i));
        stuck_means_cyclic(steps, done, rank, j);
    }
}

fn is_acyclic(steps: &Vec<RecipeStep>) -> (r: bool)
    requires
        well_named(steps@),
        bad_dependencies(steps@, 0) is None,
    ensures
        r == acyclic(steps@),
{
    let n = steps.len();
    let mut done: Vec<bool> = Vec::new();
    let mut rank: Vec<usize> = Vec::new();
    let mut m: usize = 0;
    while m < n
        invariant
            m <= n,
            done@.len() == m,
            rank@.len() == m,
            forall|k: int| 0 <= k < m ==> !(#[trigger] done@[k]),
        decreases n - m,
    {
        done.push(false);
        rank.push(0);
        m = m + 1;
    }
    proof {
        all_left(done@);
    }
    let mut tick: usize = 0;
    loop
        invariant_except_break
            true,
        invariant
            n == steps@.len(),
            done@.len() == n,
            rank@.len() == n,
            well_named(steps@),
            bad_dependencies(steps@, 0) is None,
            tick + left(done@) == n,
            forall|k: int| 0 <= k < n && done@[k] ==> (#[trigger] rank@[k]) < tick,
            in_order(steps@, done@, rank@),
        ensures
            forall|k: int|
                0 <= k < n && !done@[k] ==> !(#[trigger] ready(steps@, done@, k)),
        decreases left(done@),
    {
        let ghost start = done@;
        let mut progress = false;
        let mut i: usize = 0;
        while i < n
            invariant
                i <= n,
                n == steps@.len(),
                done@.len() == n,
                rank@.len() == n,
                well_named(steps@),
                bad_dependencies(steps@, 0) is None,
                tick + left(done@) == n,
                forall|k: int| 0 <= k < n && done@[k] ==> (#[trigger] rank@[k]) < tick,
                in_order(steps@, done@, rank@),
                left(done@) <= left(start),
                progress ==> left(done@) < left(start),
                !progress ==> done@ == start && (forall|k: int|
                    0 <= k < i && !done@[k] ==> !(#[trigger] ready(steps@, done@, k))),
            decreases n - i,
        {
            if !done[i] && is_ready(steps, &done, i) {
                let ghost before = done@;
                let ghost ranked = rank@;
                proof {
                    one_less_left(done@, i as int);
                }
                done[i] = true;
                rank[i] = tick;
                tick = tick + 1;
                progress = true;
                assert(in_order(steps@, done@, rank@)) by {
                    assert forall|a: int, b: int|
                        0 <= a < n && 0 <= b < n && done@[a] && #[trigger] depends(
                            steps@,
                            a,
                            b,
                        ) implies done@[b] && rank@[b] < rank@[a] by {
                        if a == i {
                            assert(before[b]);
                            assert(b != i);
                            assert(ranked[b] < tick - 1);
                        } else {
                            assert(before[a]);
                            assert(before[b] && ranked[b] < ranked[a]);
                            assert(b != i);
                        }
                    }
                }
                assert forall|k: int| 0 <= k < n && done@[k] implies (#[trigger] rank@[k])
                    < tick by {
                    if k != i {
                        assert(before[k]);
                        assert(ranked[k] == rank@[k]);
                    }
                }
            }
            i = i + 1;
        }
        if !progress {
            break ;
        }
    }
    let mut i: usize = 0;
    while i < n
        invariant
            i <= n,
            n == steps@.len(),
            done@.len() == n,
            forall|k: int| 0 <= k < i ==> #[trigger] done@[k],
            forall|k: int|
                0 <= k < n && !done@[k] ==> !(#[trigger] ready(steps@, done@, k)),
        decreases n - i,
    {
        if !done[i] {
            proof {
                if acyclic(steps@) {
                    let rank = choose|rank: spec_fn(int) -> nat| #[trigger] orders(steps@, rank);
                    stuck_means_cyclic(steps@, done@, rank, i as int);
                }
            }
            return false;
        }
        i = i + 1;
    }
    proof {
        let places = |k: int| rank@[k] as nat;
        assert(orders(steps@, places));
    }
    true
}

/// Checks a recipe that is to be saved.
pub fn validate_saved_recipe(steps: &Vec<RecipeStep>) -> (r: Result<(), String>)
    ensures
        match defect(steps@) {
            Some(e) => r matches Err(m) && m@ == e,
            None => r is Ok,
        },
{
    if steps.len() == 0 {
        return Err("Saved recipe contains no steps".to_owned());
    }
    if steps.len() > MAX_RECIPE_STEPS {
        return Err("Saved recipe exceeds the 32-step limit".to_owned());
    }
    if !is_well_named(steps) {
        return Err("Saved recipe contains empty or duplicate step IDs".to_owned());
    }
    if let Some(message) = check_dependencies(steps) {
        return Err(message);
    }
    if !is_acyclic(steps) {
        return Err("Saved recipe contains a dependency cycle".to_owned());
    }
    Ok(())
}

/// Each step of the path depends on the next.
pub open spec fn chain(steps: Seq<RecipeStep>, path: Seq<int>) -> bool {
    &&& forall|k: int| 0 <= k < path.len() ==> 0 <= #[trigger] path[k] < steps.len()
    &&& forall|k: int|
        0 < k < path.len() ==> depends(steps, path[k - 1], #[trigger] path[k])
}

/// In a recipe that can be saved no step depends on itself, through however many
/// others.
pub proof fn saved_recipes_have_no_cycles(steps: Seq<RecipeStep>, path: Seq<int>)
    requires
        defect(steps) is None,
        path.len() > 1,
        chain(steps, path),
    ensures
        path[0] != path.last(),
{
    let rank = choose|rank: spec_fn(int) -> nat| #[trigger] orders(steps, rank);
    chains_go_down(steps, path, rank, path.len() - 1);
}

proof fn chains_go_down(
    steps: Seq<RecipeStep>,
    path: Seq<int>,
    rank: spec_fn(int) -> nat,
    k: int,
)
    requires
        orders(steps, rank),
        chain(steps, path),
        0 < k < path.len(),
    ensures
        rank(path[k]) < rank(path[0]),
    decreases k,
{
    assert(depends(steps, path[k - 1], path[k]));
    assert(rank(path[k]) < rank(path[k - 1]));
    if k > 1 {
        chains_go_down(steps, path, rank, k - 1);
    }
}

proof fn known_dependencies_are_sound(steps: Seq<RecipeStep>, step: RecipeStep, k: int)
    requires
        0 <= k,
        forall|m: int|
            k <= m < step.depends_on@.len() ==> known(steps, (#[trigger] step.depends_on@[m])@)
                && step.depends_on@[m]@ != step.id@,
    ensures
        bad_dependency(steps, step, k) is None,
    decreases step.depends_on@.len() - k,
{
    if k < step.depends_on@.len() {
        assert(known(steps, step.depends_on@[k]@));
        known_dependencies_are_sound(steps, step, k + 1);
    }
}

proof fn known_steps_are_sound(steps: Seq<RecipeStep>, i: int)
    requires
        0 <= i,
        forall|m: int, k: int|
            i <= m < steps.len() && 0 <= k < steps[m].depends_on@.len() ==> known(
                steps,
                (#[trigger] steps[m].depends_on@[k])@,
            ) && steps[m].depends_on@[k]@ != steps[m].id@,
    ensures
        bad_dependencies(steps, i) is None,
    decreases steps.len() - i,
{
    if i < steps.len() {
        known_dependencies_are_sound(steps, steps[i], 0);
        known_steps_are_sound(steps, i + 1);
    }
}

proof fn each_dependency_is_sound(steps: Seq<RecipeStep>, i: int, m: int)
    requires
        0 <= i <= m < steps.len(),
        bad_dependencies(steps, i) is None,
    ensures
        bad_dependency(steps, steps[m], 0) is None,
    decreases m - i,
{
    if i < m {
        each_dependency_is_sound(steps, i + 1, m);
    }
}

/// A recipe can be saved exactly where it has steps, no more than thirty-two of
/// them, where each has a name of its own, depends only on other steps of the
/// recipe, and the steps can be put in an order in which each comes behind what
/// it depends on.
pub proof fn sound_recipes_are_saved(steps: Seq<RecipeStep>)
    ensures
        defect(steps) is None <==> {
            &&& 0 < steps.len() <= 32
            &&& forall|i: int| 0 <= i < steps.len() ==> (#[trigger] steps[i]).id@.len() > 0
            &&& forall|i: int, j: int|
                0 <= i < j < steps.len() ==> (#[trigger] steps[i]).id@ != (#[trigger] steps[j]).id@
            &&& forall|i: int, k: int|
                0 <= i < steps.len() && 0 <= k < steps[i].depends_on@.len() ==> known(
                    steps,
                    (#[trigger] steps[i].depends_on@[k])@,
                ) && steps[i].depends_on@[k]@ != steps[i].id@
            &&& exists|rank: spec_fn(int) -> nat| #[trigger] orders(steps, rank)
        },
{
    if bad_dependencies(steps, 0) is None {
        assert forall|i: int, k: int|
            0 <= i < steps.len() && 0 <= k < steps[i].depends_on@.len() implies known(
            steps,
            (#[trigger] steps[i].depends_on@[k])@,
        ) && steps[i].depends_on@[k]@ != steps[i].id@ by {
            each_dependency_is_sound(steps, 0, i);
            sound_dependency(steps, steps[i], 0);
        }
    }
    if forall|i: int, k: int|
        0 <= i < steps.len() && 0 <= k < steps[i].depends_on@.len() ==> known(
            steps,
            (#[trigger] steps[i].depends_on@[k])@,
        ) && steps[i].depends_on@[k]@ != steps[i].id@ {
        known_steps_are_sound(steps, 0);
    }
}

} // verus!
