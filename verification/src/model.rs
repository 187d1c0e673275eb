//! Model names, and the reasoning effort that a model takes.

use crate::text::{begins_with, chars_of, first_nonempty, opt_str, same_text};
use vstd::prelude::*;
use vstd::string::*;

verus! {

/// What stands behind the last `c` in `s`; all of `s` where there is none.
pub open spec fn behind_last(s: Seq<char>, c: char) -> Seq<char>
    decreases s.len(),
{
    if s.len() == 0 || s.last() == c {
        Seq::empty()
    } else {
        behind_last(s.drop_last(), c).push(s.last())
    }
}

/// The name of a model without the names of its providers.
pub open spec fn model_id(model: Seq<char>) -> Seq<char> {
    behind_last(model, '/')
}

/// The name of a model without the names of its providers.
pub fn normalize_model_id<'a>(model: &'a str) -> (r: &'a str)
    ensures
        r@ == model_id(model@),
{
    let cs = chars_of(model);
    let n: usize = cs.len();
    let mut i: usize = n;
    proof {
        assert(model@.take(n as int) =~= model@);
        assert(model@.skip(n as int) =~= Seq::<char>::empty());
        assert(behind_last(model@, '/') + Seq::<char>::empty() =~= behind_last(model@, '/'));
    }
    while 0 < i && cs[i - 1] != '/'
        invariant
            i <= n,
            n == cs@.len(),
            cs@ == model@,
            model_id(model@) == behind_last(model@.take(i as int), '/') + model@.skip(i as int),
        decreases i,
    {
        proof {
            let head = model@.take(i as int);
            assert(head.drop_last() =~= model@.take(i - 1));
            assert(behind_last(head, '/') + model@.skip(i as int) =~= behind_last(
                head.drop_last(),
                '/',
            ) + model@.skip(i - 1));
        }
        i -= 1;
    }
    proof {
        assert(behind_last(model@.take(i as int), '/') =~= Seq::<char>::empty());
        assert(model@.subrange(i as int, n as int) =~= model@.skip(i as int));
        assert(Seq::<char>::empty() + model@.skip(i as int) =~= model@.skip(i as int));
    }
    model.substring_char(i, n)
}

/// The effort that a model takes where `effort` is asked for.
pub open spec fn clamped_effort(model: Seq<char>, effort: Seq<char>) -> Seq<char> {
    let id = model_id(model);
    if id == "gpt-5-codex"@ {
        if effort == "low"@ || effort == "medium"@ || effort == "high"@ {
            effort
        } else if effort == "minimal"@ {
            "low"@
        } else {
            "high"@
        }
    } else if (crate::text::begins(id, "gpt-5.2"@) || crate::text::begins(id, "gpt-5.3"@)) && effort
        == "minimal"@ {
        "low"@
    } else if crate::text::begins(id, "gpt-5-codex"@) && effort == "xhigh"@ {
        "high"@
    } else if id == "gpt-5.1"@ && effort == "xhigh"@ {
        "high"@
    } else if id == "gpt-5.1-codex-mini"@ {
        if effort == "high"@ || effort == "xhigh"@ {
            "high"@
        } else {
            "medium"@
        }
    } else {
        effort
    }
}

/// The effort that a model takes where `effort` is asked for.
pub fn clamp_reasoning_effort(model: &str, effort: &str) -> (r: String)
    ensures
        r@ == clamped_effort(model@, effort@),
{
    let id = normalize_model_id(model);
    if same_text(id, "gpt-5-codex") {
        if same_text(effort, "low") || same_text(effort, "medium") || same_text(effort, "high") {
            return effort.to_owned();
        }
        if same_text(effort, "minimal") {
            return "low".to_owned();
        }
        return "high".to_owned();
    }
    if (begins_with(id, "gpt-5.2") || begins_with(id, "gpt-5.3")) && same_text(effort, "minimal") {
        return "low".to_owned();
    }
    if begins_with(id, "gpt-5-codex") && same_text(effort, "xhigh") {
        return "high".to_owned();
    }
    if same_text(id, "gpt-5.1") && same_text(effort, "xhigh") {
        return "high".to_owned();
    }
    if same_text(id, "gpt-5.1-codex-mini") {
        if same_text(effort, "high") || same_text(effort, "xhigh") {
            return "high".to_owned();
        }
        return "medium".to_owned();
    }
    effort.to_owned()
}

/// The effort that is asked for: the configured one, or where none is
/// configured the one in the environment; in lower case, and `xhigh` where what
/// is named is blank or nothing is.
pub open spec fn wanted_effort(
    configured: Option<Seq<char>>,
    environment: Option<Seq<char>>,
) -> Seq<char> {
    let named = if configured is Some {
        configured
    } else {
        environment
    };
    match crate::text::nonblank(named) {
        Some(effort) => crate::text::lowered(effort),
        None => "xhigh"@,
    }
}

/// The effort to send: the one asked for, as far as the model takes it.
///
/// `environment` is the value of the legacy environment variable, if it is set.
pub fn resolve_reasoning_effort(
    model_id: &str,
    configured: Option<&str>,
    environment: Option<&str>,
) -> (r: String)
    ensures
        r@ == clamped_effort(model_id@, wanted_effort(opt_str(configured), opt_str(environment))),
{
    let named = if configured.is_some() {
        configured
    } else {
        environment
    };
    let raw = match first_nonempty(named) {
        Some(effort) => effort.as_str().to_ascii_lowercase(),
        None => "xhigh".to_owned(),
    };
    clamp_reasoning_effort(model_id, raw.as_str())
}

/// A normalized name holds no provider, is the end of the full name, and stays
/// as it is when it is normalized again.
pub proof fn model_id_is_normal(model: Seq<char>)
    ensures
        !model_id(model).contains('/'),
        crate::text::ends(model, model_id(model)),
        model_id(model_id(model)) == model_id(model),
{
    lemma_behind_last(model, '/');
    lemma_behind_last_of_none(model_id(model), '/');
}

proof fn lemma_behind_last(s: Seq<char>, c: char)
    ensures
        !behind_last(s, c).contains(c),
        behind_last(s, c).len() <= s.len(),
        s.skip(s.len() - behind_last(s, c).len()) == behind_last(s, c),
    decreases s.len(),
{
    if s.len() > 0 && s.last() != c {
        lemma_behind_last(s.drop_last(), c);
        let inner = behind_last(s.drop_last(), c);
        let b = behind_last(s, c);
        assert(forall|i: int| 0 <= i < inner.len() ==> inner[i] != c) by {
            assert(forall|i: int| 0 <= i < inner.len() ==> inner.contains(#[trigger] inner[i]));
        }
        assert(s.skip(s.len() - b.len()) =~= s.drop_last().skip(
            s.drop_last().len() - inner.len(),
        ).push(s.last()));
    } else {
        assert(s.skip(s.len() as int) =~= Seq::<char>::empty());
    }
}

proof fn lemma_behind_last_of_none(s: Seq<char>, c: char)
    requires
        !s.contains(c),
    ensures
        behind_last(s, c) == s,
    decreases s.len(),
{
    if s.len() > 0 {
        assert(s.contains(s.last()));
        assert(forall|i: int| 0 <= i < s.drop_last().len() ==> s.contains(#[trigger] s.drop_last()[i]));
        lemma_behind_last_of_none(s.drop_last(), c);
        assert(s.drop_last().push(s.last()) =~= s);
    } else {
        assert(s =~= Seq::<char>::empty());
    }
}

/// A model takes the effort that was settled for it as it is, and the
/// providers in its name make no difference.
pub proof fn clamping_is_idempotent(model: Seq<char>, effort: Seq<char>)
    ensures
        clamped_effort(model, clamped_effort(model, effort)) == clamped_effort(model, effort),
        clamped_effort(model_id(model), effort) == clamped_effort(model, effort),
{
    model_id_is_normal(model);
    reveal_strlit("low");
    reveal_strlit("high");
    reveal_strlit("medium");
    reveal_strlit("minimal");
    reveal_strlit("xhigh");
    reveal_strlit("gpt-5.1-codex-mini");
    reveal_strlit("gpt-5.2");
    reveal_strlit("gpt-5.3");
    assert("low"@.len() == 3 && "high"@.len() == 4 && "xhigh"@.len() == 5 && "medium"@.len() == 6
        && "minimal"@.len() == 7);
    let id = model_id(model);
    if id == "gpt-5.1-codex-mini"@ {
        assert(id.take(7)[6] == '1');
        assert("gpt-5.2"@[6] == '2');
        assert("gpt-5.3"@[6] == '3');
    }
}

/// What the codex model takes is one of the efforts that it knows.
pub proof fn codex_takes_known_efforts(model: Seq<char>, effort: Seq<char>)
    requires
        model_id(model) == "gpt-5-codex"@,
    ensures
        ({
            let taken = clamped_effort(model, effort);
            taken == "low"@ || taken == "medium"@ || taken == "high"@
        }),
{
}

} // verus!
