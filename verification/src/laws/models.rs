//! Model names and reasoning efforts.

use crate::laws::text::all_white;
use crate::model::{clamped_effort, model_id, wanted_effort};
use crate::text::{begins, blank_is_all_white, lowered, trimmed};
use vstd::prelude::*;

verus! {

/// The name of a model is all that stands behind the last slash, and nothing of it is
/// lost: a name without a slash stays as it is, and what stands before a slash makes
/// no difference.
pub proof fn model_names_stand_behind_the_last_slash(before: Seq<char>, name: Seq<char>)
    requires
        !name.contains('/'),
    ensures
        model_id(name) == name,
        model_id(before.push('/') + name) == name,
    decreases name.len(),
{
    let whole = before.push('/') + name;
    if name.len() > 0 {
        let shorter = name.drop_last();
        assert(name.contains(name.last()));
        assert(!shorter.contains('/')) by {
            if shorter.contains('/') {
                let i = choose|i: int| 0 <= i < shorter.len() && shorter[i] == '/';
                assert(name[i] == '/');
            }
        }
        model_names_stand_behind_the_last_slash(before, shorter);
        assert(whole.drop_last() =~= before.push('/') + shorter);
        assert(shorter.push(name.last()) =~= name);
    } else {
        assert(whole =~= before.push('/'));
        assert(name =~= Seq::<char>::empty());
    }
}

/// Providers in front of a model's name make no difference to the effort it takes.
pub proof fn providers_make_no_difference(
    before: Seq<char>,
    name: Seq<char>,
    effort: Seq<char>,
)
    requires
        !name.contains('/'),
    ensures
        clamped_effort(before.push('/') + name, effort) == clamped_effort(name, effort),
{
    model_names_stand_behind_the_last_slash(before, name);
}

proof fn lemma_efforts_differ()
    ensures
        "low"@ != "high"@,
        "low"@ != "medium"@,
        "low"@ != "minimal"@,
        "low"@ != "xhigh"@,
        "high"@ != "medium"@,
        "high"@ != "minimal"@,
        "high"@ != "xhigh"@,
        "medium"@ != "minimal"@,
        "medium"@ != "xhigh"@,
        "minimal"@ != "xhigh"@,
{
    reveal_strlit("low");
    reveal_strlit("high");
    reveal_strlit("medium");
    reveal_strlit("minimal");
    reveal_strlit("xhigh");
    assert("low"@.len() == 3 && "high"@.len() == 4 && "xhigh"@.len() == 5 && "medium"@.len() == 6
        && "minimal"@.len() == 7);
}

/// The codex model knows three efforts and takes each of them as it is; of those it
/// does not know, the least becomes its least, and every other its most.
pub proof fn codex_knows_three_efforts(effort: Seq<char>)
    ensures
        ({
            let takes = |e: Seq<char>| clamped_effort("gpt-5-codex"@, e);
            &&& takes("low"@) == "low"@
            &&& takes("medium"@) == "medium"@
            &&& takes("high"@) == "high"@
            &&& takes("minimal"@) == "low"@
            &&& effort != "low"@ && effort != "medium"@ && effort != "high"@ && effort != "minimal"@
                ==> takes(effort) == "high"@
        }),
{
    lemma_efforts_differ();
    lemma_plain_names();
}

proof fn lemma_plain_names()
    ensures
        model_id("gpt-5-codex"@) == "gpt-5-codex"@,
        model_id("gpt-5.1"@) == "gpt-5.1"@,
        model_id("gpt-5.1-codex-mini"@) == "gpt-5.1-codex-mini"@,
        !begins("gpt-5.1"@, "gpt-5.2"@),
        !begins("gpt-5.1"@, "gpt-5.3"@),
        !begins("gpt-5.1"@, "gpt-5-codex"@),
        !begins("gpt-5.1-codex-mini"@, "gpt-5.2"@),
        !begins("gpt-5.1-codex-mini"@, "gpt-5.3"@),
        !begins("gpt-5.1-codex-mini"@, "gpt-5-codex"@),
        "gpt-5.1"@ != "gpt-5-codex"@,
        "gpt-5.1"@ != "gpt-5.1-codex-mini"@,
        "gpt-5.1-codex-mini"@ != "gpt-5-codex"@,
{
    reveal_strlit("gpt-5-codex");
    reveal_strlit("gpt-5.1");
    reveal_strlit("gpt-5.2");
    reveal_strlit("gpt-5.3");
    reveal_strlit("gpt-5.1-codex-mini");
    assert(!"gpt-5-codex"@.contains('/'));
    assert(!"gpt-5.1"@.contains('/'));
    assert(!"gpt-5.1-codex-mini"@.contains('/'));
    model_names_stand_behind_the_last_slash(Seq::empty(), "gpt-5-codex"@);
    model_names_stand_behind_the_last_slash(Seq::empty(), "gpt-5.1"@);
    model_names_stand_behind_the_last_slash(Seq::empty(), "gpt-5.1-codex-mini"@);
    assert("gpt-5.1"@.take(7)[6] == '1' && "gpt-5.2"@[6] == '2' && "gpt-5.3"@[6] == '3');
    assert("gpt-5.1-codex-mini"@.take(7)[6] == '1');
    assert("gpt-5.1-codex-mini"@.take(11)[5] == '.' && "gpt-5-codex"@[5] == '-');
    assert("gpt-5.1"@.len() == 7 && "gpt-5-codex"@.len() == 11 && "gpt-5.1-codex-mini"@.len()
        == 18);
}

/// The small codex model takes `high` where that or more is asked for, and `medium`
/// else.
pub proof fn the_small_codex_knows_two_efforts(effort: Seq<char>)
    ensures
        ({
            let takes = |e: Seq<char>| clamped_effort("gpt-5.1-codex-mini"@, e);
            &&& takes("high"@) == "high"@
            &&& takes("xhigh"@) == "high"@
            &&& effort != "high"@ && effort != "xhigh"@ ==> takes(effort) == "medium"@
        }),
{
    lemma_efforts_differ();
    lemma_plain_names();
}

/// `gpt-5.1`, and every codex model of the first generation, take `high` for `xhigh`;
/// the former takes any other effort as it is.
pub proof fn xhigh_is_high_for_older_models(version: Seq<char>, effort: Seq<char>)
    requires
        !version.contains('/'),
    ensures
        clamped_effort("gpt-5.1"@, "xhigh"@) == "high"@,
        effort != "xhigh"@ ==> clamped_effort("gpt-5.1"@, effort) == effort,
        clamped_effort("gpt-5-codex"@ + version, "xhigh"@) == "high"@,
        version.len() > 0 && effort != "xhigh"@ ==> clamped_effort("gpt-5-codex"@ + version, effort)
            == effort,
{
    lemma_efforts_differ();
    lemma_plain_names();
    let model = "gpt-5-codex"@ + version;
    reveal_strlit("gpt-5-codex");
    reveal_strlit("gpt-5.2");
    reveal_strlit("gpt-5.3");
    reveal_strlit("gpt-5.1-codex-mini");
    reveal_strlit("gpt-5.1");
    lemma_no_slash("gpt-5-codex"@, version);
    model_names_stand_behind_the_last_slash(Seq::empty(), model);
    assert(model.take(11) =~= "gpt-5-codex"@);
    assert(model.take(7)[5] == '-' && "gpt-5.2"@[5] == '.' && "gpt-5.3"@[5] == '.');
    assert("gpt-5.1-codex-mini"@[5] == '.' && "gpt-5.1"@[5] == '.');
    assert(model[5] == '-');
}

proof fn lemma_no_slash(a: Seq<char>, b: Seq<char>)
    requires
        !a.contains('/'),
        !b.contains('/'),
    ensures
        !(a + b).contains('/'),
{
    if (a + b).contains('/') {
        let i = choose|i: int| 0 <= i < (a + b).len() && (a + b)[i] == '/';
        if i < a.len() {
            assert(a[i] == '/');
        } else {
            assert(b[i - a.len()] == '/');
        }
    }
}

/// The models of the second and the third generation take `low` for `minimal`, and any
/// other effort as it is.
pub proof fn minimal_is_low_for_newer_models(version: Seq<char>, effort: Seq<char>)
    requires
        !version.contains('/'),
    ensures
        clamped_effort("gpt-5.2"@ + version, "minimal"@) == "low"@,
        clamped_effort("gpt-5.3"@ + version, "minimal"@) == "low"@,
        effort != "minimal"@ ==> clamped_effort("gpt-5.2"@ + version, effort) == effort,
        effort != "minimal"@ ==> clamped_effort("gpt-5.3"@ + version, effort) == effort,
{
    lemma_efforts_differ();
    reveal_strlit("gpt-5-codex");
    reveal_strlit("gpt-5.1");
    reveal_strlit("gpt-5.2");
    reveal_strlit("gpt-5.3");
    reveal_strlit("gpt-5.1-codex-mini");
    let second = "gpt-5.2"@ + version;
    let third = "gpt-5.3"@ + version;
    lemma_no_slash("gpt-5.2"@, version);
    lemma_no_slash("gpt-5.3"@, version);
    model_names_stand_behind_the_last_slash(Seq::empty(), second);
    model_names_stand_behind_the_last_slash(Seq::empty(), third);
    assert(second.take(7) =~= "gpt-5.2"@);
    assert(third.take(7) =~= "gpt-5.3"@);
    assert(second[6] == '2' && third[6] == '3' && "gpt-5.1"@[6] == '1');
    assert("gpt-5.1-codex-mini"@[6] == '1');
    assert(second[5] == '.' && third[5] == '.' && "gpt-5-codex"@[5] == '-');
    assert(second.len() >= 11 ==> second.take(11)[5] == '.');
    assert(third.len() >= 11 ==> third.take(11)[5] == '.');
}

/// Every other model takes any effort as it is.
pub proof fn other_models_take_any_effort(model: Seq<char>, effort: Seq<char>)
    requires
        !model.contains('/'),
        !begins(model, "gpt-5-codex"@),
        !begins(model, "gpt-5.1"@),
        !begins(model, "gpt-5.2"@),
        !begins(model, "gpt-5.3"@),
    ensures
        clamped_effort(model, effort) == effort,
{
    model_names_stand_behind_the_last_slash(Seq::empty(), model);
    reveal_strlit("gpt-5-codex");
    reveal_strlit("gpt-5.1");
    reveal_strlit("gpt-5.1-codex-mini");
    assert("gpt-5.1-codex-mini"@.take(7) =~= "gpt-5.1"@);
    assert("gpt-5.1"@.take(7) =~= "gpt-5.1"@);
    assert("gpt-5-codex"@.take(11) =~= "gpt-5-codex"@);
}

/// So does every model named after `gpt-5.1` but the small codex model.
pub proof fn relatives_take_any_effort(version: Seq<char>, effort: Seq<char>)
    requires
        !version.contains('/'),
        version.len() > 0,
        version != "-codex-mini"@,
    ensures
        clamped_effort("gpt-5.1"@ + version, effort) == effort,
{
    reveal_strlit("gpt-5-codex");
    reveal_strlit("gpt-5.1");
    reveal_strlit("gpt-5.2");
    reveal_strlit("gpt-5.3");
    reveal_strlit("gpt-5.1-codex-mini");
    reveal_strlit("-codex-mini");
    let model = "gpt-5.1"@ + version;
    assert(!"gpt-5.1"@.contains('/'));
    lemma_no_slash("gpt-5.1"@, version);
    model_names_stand_behind_the_last_slash(Seq::empty(), model);
    assert(model.take(7) =~= "gpt-5.1"@);
    assert("gpt-5.2"@[6] == '2' && "gpt-5.3"@[6] == '3' && "gpt-5.1"@[6] == '1');
    assert(model[5] == '.' && "gpt-5-codex"@[5] == '-');
    assert(model.len() >= 11 ==> model.take(11)[5] == '.');
    if model == "gpt-5.1-codex-mini"@ {
        assert(version =~= model.skip(7));
        assert("gpt-5.1-codex-mini"@.skip(7) =~= "-codex-mini"@);
    }
}

/// A configured effort is asked for, whatever the environment names; the environment's
/// only where none is configured. It is asked for trimmed and in lower case, and
/// `xhigh` where it is blank or none is named.
pub proof fn configured_efforts_come_first(
    configured: Seq<char>,
    named: Seq<char>,
    environment: Option<Seq<char>>,
)
    ensures
        !all_white(configured) ==> wanted_effort(Some(configured), environment) == lowered(
            trimmed(configured),
        ),
        all_white(configured) ==> wanted_effort(Some(configured), environment) == "xhigh"@,
        !all_white(named) ==> wanted_effort(None, Some(named)) == lowered(trimmed(named)),
        all_white(named) ==> wanted_effort(None, Some(named)) == "xhigh"@,
        wanted_effort(None, None) == "xhigh"@,
{
    blank_is_all_white(configured);
    blank_is_all_white(named);
}

} // verus!
