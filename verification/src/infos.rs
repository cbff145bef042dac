//! What is reported of the running instances: their state as one JSON text, or
//! as pairs of a name and a JSON text.
use serde_json::Value;
use vstd::prelude::*;

use crate::errors::{self, out_text, OutText, OutView};
use crate::json::{self, json_list, json_null, json_text_or, Json};
use crate::session::{self, message, Bridge};

verus! {

/// What each of the trees holds, as far as there is one.
pub open spec fn info_views(infos: Seq<Option<Value>>) -> Seq<Option<Json>> {
    infos.map_values(
        |v: Option<Value>|
            match v {
                Some(v) => Some(json::json_of(v)),
                None => None,
            },
    )
}

/// Those of the values that are there, in their order.
pub open spec fn present(infos: Seq<Option<Json>>) -> Seq<Json>
    decreases infos.len(),
{
    if infos.len() == 0 {
        Seq::empty()
    } else {
        match infos.last() {
            Some(j) => present(infos.drop_last()).push(j),
            None => present(infos.drop_last()),
        }
    }
}

/// The state of all instances in one value: that of the one instance itself, a
/// list of those of several, null where there is none. A state that could not be
/// turned into JSON counts as null alone, and is left out of a list.
pub open spec fn combined(infos: Seq<Option<Json>>) -> Json {
    if infos.len() == 0 {
        Json::Null
    } else if infos.len() == 1 {
        match infos[0] {
            Some(j) => j,
            None => Json::Null,
        }
    } else {
        Json::List(present(infos))
    }
}

/// The JSON text of the state of all instances; an empty object should it not be
/// writable.
pub open spec fn running_info_text(infos: Seq<Option<Json>>) -> Seq<char> {
    match json::json_text(combined(infos)) {
        Some(s) => s,
        None => "{}"@,
    }
}

/// Combines the states of the instances in one value.
pub fn combine_running_infos(infos: Vec<Option<Value>>) -> (r: Value)
    ensures
        json::json_of(r) == combined(info_views(infos@)),
{
    let count: usize = infos.len();
    let mut values: Vec<Value> = Vec::new();
    let ghost views = info_views(infos@);
    assert(views.take(0) =~= Seq::<Option<Json>>::empty());
    for info in it: infos
        invariant
            it.seq() == infos@,
            views == info_views(infos@),
            json::json_views(values@) == present(views.take(it.index())),
    {
        proof {
            assert(views.take(it.index() + 1).drop_last() =~= views.take(it.index()));
        }
        if let Some(value) = info {
            values.push(value);
            assert(json::json_views(values@) =~= json::json_views(
                values@.drop_last(),
            ).push(json::json_of(value)));
        }
    }
    assert(views.take(views.len() as int) =~= views);
    if count > 1 {
        return json_list(values);
    }
    proof {
        let held = json::json_views(values@);
        assert(held == present(views));
        if count == 1 {
            assert(views.drop_last() =~= Seq::<Option<Json>>::empty());
            assert(present(views.drop_last()) =~= Seq::<Json>::empty());
            assert(views.last() == views[0]);
        }
        if held.len() > 0 {
            assert(held.last() == json::json_of(values@.last()));
        }
    }
    match values.pop() {
        Some(value) => value,
        None => json_null(),
    }
}

/// The state of all instances as one JSON text. `collected` is what the manager
/// has collected: for each instance its state in JSON, as far as it could be
/// turned into JSON.
pub fn running_info(bridge: &mut Bridge, collected: Result<Vec<Option<Value>>, String>) -> (r:
    Result<String, String>)
    ensures
        match collected {
            Ok(infos) => {
                &&& r matches Ok(text) && text@ == running_info_text(info_views(infos@))
                    && !text@.contains('\0')
                &&& final(bridge)@ == old(bridge)@
            },
            Err(e) => {
                let msg = "failed to collect running info: "@ + e@;
                &&& r matches Err(text) && text@ == msg
                &&& final(bridge)@ == session::with_error(old(bridge)@, msg)
            },
        },
{
    match collected {
        Ok(infos) => {
            let value = combine_running_infos(infos);
            proof {
                reveal_strlit("{}");
            }
            Ok(json_text_or(&value, "{}"))
        },
        Err(e) => {
            let msg = message("failed to collect running info: ", e.as_str());
            bridge.fail(msg)
        },
    }
}

/// The answer to a request for the state of all instances: the status, what
/// becomes of the output variable, and the error to report.
pub struct RunningInfoReply {
    pub code: i32,
    pub json: OutText,
    pub error: Option<String>,
}

/// Answers a request for the state of all instances. A caller that gives no output
/// variable is refused without an error message. The text always is a C string; on
/// an error the variable becomes null.
pub fn get_running_info(
    bridge: &mut Bridge,
    given: bool,
    collected: Result<Vec<Option<Value>>, String>,
) -> (r: RunningInfoReply)
    ensures
        if !given {
            &&& r.code == -1
            &&& r.json@ == OutView::Untouched
            &&& r.error is None
            &&& final(bridge)@ == old(bridge)@
        } else {
            match collected {
                Ok(infos) => {
                    &&& r.code == 0
                    &&& r.json@ == OutView::Text(
                        vstd::utf8::encode_utf8(running_info_text(info_views(infos@))),
                    )
                    &&& r.error is None
                    &&& final(bridge)@ == old(bridge)@
                },
                Err(e) => {
                    let msg = "failed to collect running info: "@ + e@;
                    &&& r.code == -1
                    &&& r.json@ == OutView::Null
                    &&& r.error matches Some(text) && text@ == msg
                    &&& final(bridge)@ == session::with_error(old(bridge)@, msg)
                },
            }
        },
{
    if !given {
        return RunningInfoReply { code: -1, json: OutText::Untouched, error: None };
    }
    match running_info(bridge, collected) {
        Ok(text) => RunningInfoReply {
            code: 0,
            json: out_text(text.as_str(), OutText::Null),
            error: None,
        },
        Err(e) => RunningInfoReply { code: -1, json: OutText::Null, error: Some(e) },
    }
}

/// The name and the state of an instance, as two texts.
pub struct KeyValuePair {
    pub key: String,
    pub value: String,
}

/// What the manager has collected of one instance: its name, unless it has none
/// any more, and its state as JSON text, or why it could not be written.
pub struct InstanceInfo {
    pub name: Option<String>,
    pub value: Result<String, String>,
}

/// The pairs that come back, and the status: their number, or -1 for an error.
pub struct CollectReply {
    pub pairs: Vec<KeyValuePair>,
    pub code: i32,
}

/// The first `max_length` of the instances that have a name.
pub open spec fn reported(infos: Seq<InstanceInfo>, max_length: int) -> Seq<InstanceInfo> {
    let named = infos.filter(|i: InstanceInfo| i.name is Some);
    if named.len() <= max_length {
        named
    } else {
        named.take(max_length)
    }
}

/// How many instances, from the first on, could be written out.
pub open spec fn written(infos: Seq<InstanceInfo>) -> int
    decreases infos.len(),
{
    if infos.len() == 0 || infos[0].value is Err {
        0
    } else {
        1 + written(infos.skip(1))
    }
}

/// The name and the state of an instance that has both.
pub open spec fn info_pair(info: InstanceInfo) -> (Seq<char>, Seq<char>) {
    (info.name->0@, info.value->Ok_0@)
}

/// The contents of pairs.
pub open spec fn pair_views(pairs: Seq<KeyValuePair>) -> Seq<(Seq<char>, Seq<char>)> {
    pairs.map_values(|p: KeyValuePair| (p.key@, p.value@))
}

proof fn lemma_written(infos: Seq<InstanceInfo>, k: int)
    requires
        0 <= k <= infos.len(),
        forall|j: int| 0 <= j < k ==> (#[trigger] infos[j]).value is Ok,
        k < infos.len() ==> infos[k].value is Err,
    ensures
        written(infos) == k,
    decreases infos.len(),
{
    if k > 0 {
        assert(infos[0].value is Ok);
        assert(forall|j: int|
            0 <= j < k - 1 ==> #[trigger] infos.skip(1)[j] == infos[j + 1]);
        lemma_written(infos.skip(1), k - 1);
    }
}

/// Reports up to `max_length` instances as pairs of name and state. An instance
/// without a name is passed over. At the first state that could not be written
/// the report ends with an error; the pairs before it stand.
pub fn collect_network_infos(
    bridge: &mut Bridge,
    collected: Result<Vec<InstanceInfo>, String>,
    max_length: usize,
) -> (r: CollectReply)
    ensures
        if max_length == 0 {
            &&& r.pairs@.len() == 0
            &&& r.code == 0
            &&& final(bridge)@ == old(bridge)@
        } else {
            match collected {
                Err(e) => {
                    &&& r.pairs@.len() == 0
                    &&& r.code == -1
                    &&& final(bridge)@ == session::with_error(
                        old(bridge)@,
                        "failed to collect network infos: "@ + e@,
                    )
                },
                Ok(infos) => {
                    let wanted = reported(infos@, max_length as int);
                    let n = written(wanted);
                    &&& r.pairs@.len() == n
                    &&& pair_views(r.pairs@) == Seq::new(n as nat, |i: int| info_pair(wanted[i]))
                    &&& n < wanted.len() ==> {
                        &&& r.code == -1
                        &&& final(bridge)@ == session::with_error(
                            old(bridge)@,
                            "failed to serialize instance info: "@ + wanted[n].value->Err_0@,
                        )
                    }
                    &&& n == wanted.len() ==> {
                        &&& r.code == n as i32
                        &&& final(bridge)@ == old(bridge)@
                    }
                },
            }
        },
{
    let mut pairs: Vec<KeyValuePair> = Vec::new();
    if max_length == 0 {
        return CollectReply { pairs, code: 0 };
    }
    let infos = match collected {
        Ok(infos) => infos,
        Err(e) => {
            let msg = message("failed to collect network infos: ", e.as_str());
            errors::set_error_msg(&mut bridge.error, msg.as_str());
            return CollectReply { pairs, code: -1 };
        },
    };
    let ghost has_name = |i: InstanceInfo| i.name is Some;
    let ghost named = infos@.filter(has_name);
    let ghost wanted = reported(infos@, max_length as int);
    let mut i: usize = 0;
    proof {
        reveal(Seq::filter);
        assert(infos@.take(0) =~= Seq::<InstanceInfo>::empty());
    }
    while i < infos.len() && pairs.len() < max_length
        invariant
            i <= infos@.len(),
            max_length > 0,
            collected matches Ok(c) && c@ == infos@,
            bridge@ == old(bridge)@,
            has_name == (|i: InstanceInfo| i.name is Some),
            named == infos@.filter(has_name),
            wanted == reported(infos@, max_length as int),
            pairs@.len() <= max_length,
            infos@.take(i as int).filter(has_name).len() == pairs@.len(),
            forall|j: int|
                0 <= j < pairs@.len() ==> (#[trigger] infos@.take(i as int).filter(
                    has_name,
                )[j]).value is Ok,
            pair_views(pairs@) == Seq::new(
                pairs@.len(),
                |j: int| info_pair(infos@.take(i as int).filter(has_name)[j]),
            ),
        decreases infos@.len() - i,
    {
        let ghost seen = infos@.take(i as int).filter(has_name);
        let ghost next = infos@.take(i + 1).filter(has_name);
        proof {
            reveal(Seq::filter);
            assert(infos@.take(i + 1).drop_last() =~= infos@.take(i as int));
            lemma_named_prefix(infos@, i + 1, has_name);
        }
        if let Some(name) = &infos[i].name {
            assert(next == seen.push(infos@[i as int]));
            match &infos[i].value {
                Ok(value) => {
                    let ghost before = pairs@;
                    pairs.push(KeyValuePair { key: name.clone(), value: value.clone() });
                    assert(pair_views(pairs@) =~= pair_views(before).push(
                        (name@, value@),
                    ));
                    assert(pair_views(pairs@) =~= Seq::new(
                        pairs@.len(),
                        |j: int| info_pair(next[j]),
                    ));
                },
                Err(e) => {
                    proof {
                        assert(named.take(next.len() as int) == next);
                        assert forall|j: int| 0 <= j < pairs@.len() implies (#[trigger] wanted[j])
                            == seen[j] by {
                            assert(next[j] == seen[j]);
                            assert(named.take(next.len() as int)[j] == named[j]);
                        }
                        assert(named.take(next.len() as int)[pairs@.len() as int]
                            == named[pairs@.len() as int]);
                        assert(wanted[pairs@.len() as int] == infos@[i as int]);
                        lemma_written(wanted, pairs@.len() as int);
                        assert(pair_views(pairs@) =~= Seq::new(
                            pairs@.len(),
                            |j: int| info_pair(wanted[j]),
                        ));
                    }
                    let msg = message("failed to serialize instance info: ", e.as_str());
                    errors::set_error_msg(&mut bridge.error, msg.as_str());
                    return CollectReply { pairs, code: -1 };
                },
            }
        }
        i += 1;
    }
    proof {
        let seen = infos@.take(i as int).filter(has_name);
        lemma_named_prefix(infos@, i as int, has_name);
        if i == infos@.len() {
            assert(infos@.take(i as int) =~= infos@);
        }
        assert(wanted =~= seen);
        lemma_written(wanted, pairs@.len() as int);
    }
    let count: usize = pairs.len();
    CollectReply { pairs, code: count as i32 }
}

proof fn lemma_named_prefix(
    infos: Seq<InstanceInfo>,
    i: int,
    keep: spec_fn(InstanceInfo) -> bool,
)
    requires
        0 <= i <= infos.len(),
    ensures
        infos.take(i).filter(keep).len() <= infos.filter(keep).len(),
        infos.filter(keep).take(infos.take(i).filter(keep).len() as int) == infos.take(i).filter(
            keep,
        ),
{
    assert(infos =~= infos.take(i) + infos.skip(i));
    Seq::filter_distributes_over_add(infos.take(i), infos.skip(i), keep);
    let a = infos.take(i).filter(keep);
    let b = infos.skip(i).filter(keep);
    assert((a + b).take(a.len() as int) =~= a);
}

/// No more pairs than `max_length` are reported.
pub proof fn law_report_is_bounded(infos: Seq<InstanceInfo>, max_length: int)
    requires
        0 <= max_length,
    ensures
        reported(infos, max_length).len() <= max_length,
        0 <= written(reported(infos, max_length)) <= reported(infos, max_length).len(),
{
    lemma_written_bounds(reported(infos, max_length));
}

proof fn lemma_written_bounds(infos: Seq<InstanceInfo>)
    ensures
        0 <= written(infos) <= infos.len(),
    decreases infos.len(),
{
    if infos.len() > 0 {
        lemma_written_bounds(infos.skip(1));
    }
}

/// Each tree stands for what it holds, and what is not there is not there.
pub proof fn law_info_views_by_item(infos: Seq<Option<Value>>, i: int)
    requires
        0 <= i < infos.len(),
    ensures
        info_views(infos).len() == infos.len(),
        infos[i] matches Some(v) ==> info_views(infos)[i] == Some(json::json_of(v)),
        infos[i] is None ==> info_views(infos)[i] is None,
{
}

/// No state is lost: where every instance has one, the list holds all of them, each
/// in its place.
pub proof fn law_no_state_is_lost(infos: Seq<Option<Json>>)
    requires
        forall|i: int| 0 <= i < infos.len() ==> (#[trigger] infos[i]) is Some,
    ensures
        present(infos).len() == infos.len(),
        forall|i: int| 0 <= i < infos.len() ==> Some(#[trigger] present(infos)[i]) == infos[i],
    decreases infos.len(),
{
    if infos.len() > 0 {
        let front = infos.drop_last();
        assert(forall|i: int| 0 <= i < front.len() ==> #[trigger] front[i] == infos[i]);
        assert(infos[infos.len() - 1] is Some);
        law_no_state_is_lost(front);
        assert forall|i: int| 0 <= i < infos.len() implies Some(#[trigger] present(infos)[i])
            == infos[i] by {
            if i < front.len() {
                assert(Some(present(front)[i]) == front[i]);
            }
        }
    }
}

/// What is listed of some instances does not depend on the others: the list of two
/// groups is that of the first and then that of the second; a single state lists
/// itself, and one that is not there lists nothing.
pub proof fn law_states_are_listed_one_by_one(
    first: Seq<Option<Json>>,
    second: Seq<Option<Json>>,
    j: Json,
)
    ensures
        present(first + second) == present(first) + present(second),
        present(seq![Some(j)]) == seq![j],
        present(seq![None::<Json>]) == Seq::<Json>::empty(),
        present(Seq::<Option<Json>>::empty()) == Seq::<Json>::empty(),
    decreases second.len(),
{
    let one = seq![Some(j)];
    let none = seq![None::<Json>];
    assert(one.drop_last() =~= Seq::<Option<Json>>::empty());
    assert(none.drop_last() =~= Seq::<Option<Json>>::empty());
    assert(present(one.drop_last()) =~= Seq::<Json>::empty());
    assert(present(one) =~= seq![j]);
    if second.len() == 0 {
        assert(first + second =~= first);
        assert(present(first) + present(second) =~= present(first));
    } else {
        law_states_are_listed_one_by_one(first, second.drop_last(), j);
        assert((first + second).drop_last() =~= first + second.drop_last());
        assert((first + second).last() == second.last());
        assert(present(first + second) =~= present(first) + present(second));
    }
}

/// Several instances are reported as the list of their states, none of which is lost
/// or changed; one instance as its own state; none as null.
pub proof fn law_combined_state(infos: Seq<Option<Json>>)
    ensures
        infos.len() == 0 ==> combined(infos) == Json::Null,
        infos.len() == 1 ==> combined(infos) == match infos[0] {
            Some(j) => j,
            None => Json::Null,
        },
        infos.len() > 1 && (forall|i: int| 0 <= i < infos.len() ==> (#[trigger] infos[i]) is Some)
            ==> {
            &&& combined(infos) matches Json::List(list)
            &&& list.len() == infos.len()
            &&& forall|i: int| 0 <= i < infos.len() ==> Some(#[trigger] list[i]) == infos[i]
        },
        infos.len() > 1 ==> combined(infos) == Json::List(present(infos)),
{
    if infos.len() > 1 && (forall|i: int|
        0 <= i < infos.len() ==> (#[trigger] infos[i]) is Some) {
        law_no_state_is_lost(infos);
    }
}

/// The text of the running info is that of the one value in which the states are
/// combined; only one that cannot be written is reported as an empty object.
pub proof fn law_running_info_is_the_whole_text(infos: Seq<Option<Json>>)
    ensures
        json::json_text(combined(infos)) is Some ==> json::json_text(combined(infos)) == Some(
            running_info_text(infos),
        ),
        json::json_text(combined(infos)) is None ==> running_info_text(infos) == "{}"@,
{
}

/// No instance is left out while there is room: as many are reported as have a name,
/// or as there is room for, whichever is less.
pub proof fn law_report_uses_all_the_room(infos: Seq<InstanceInfo>, max_length: int)
    requires
        0 <= max_length,
    ensures
        ({
            let named = infos.filter(|i: InstanceInfo| i.name is Some);
            &&& reported(infos, max_length).len() == if named.len() <= max_length {
                named.len() as int
            } else {
                max_length
            }
            &&& named.len() <= max_length ==> reported(infos, max_length) == named
            &&& forall|i: int|
                0 <= i < reported(infos, max_length).len() ==> #[trigger] reported(
                    infos,
                    max_length,
                )[i] == named[i]
        }),
{
}

/// One more instance is reported behind the others exactly if it has a name and there
/// is room left; otherwise it changes nothing.
pub proof fn law_report_takes_the_next_with_a_name(
    infos: Seq<InstanceInfo>,
    next: InstanceInfo,
    max_length: int,
)
    requires
        0 <= max_length,
    ensures
        reported(Seq::<InstanceInfo>::empty(), max_length).len() == 0,
        reported(infos.push(next), max_length) == if next.name is Some && reported(
            infos,
            max_length,
        ).len() < max_length {
            reported(infos, max_length).push(next)
        } else {
            reported(infos, max_length)
        },
{
    reveal(Seq::filter);
    let has_name = |i: InstanceInfo| i.name is Some;
    let named = infos.filter(has_name);
    assert(infos.push(next).drop_last() =~= infos);
    assert(Seq::<InstanceInfo>::empty().filter(has_name).len() == 0);
    if next.name is Some {
        if named.len() == max_length {
            assert(named.push(next).take(max_length) =~= named);
        } else if named.len() > max_length {
            assert(named.push(next).take(max_length) =~= named.take(max_length));
        }
    }
}

/// What could be written out goes up to the first state that could not, and to the
/// end where all of them could.
pub proof fn law_written_up_to_the_first_failure(infos: Seq<InstanceInfo>)
    ensures
        0 <= written(infos) <= infos.len(),
        forall|i: int| 0 <= i < written(infos) ==> (#[trigger] infos[i]).value is Ok,
        written(infos) < infos.len() ==> infos[written(infos)].value is Err,
    decreases infos.len(),
{
    if infos.len() > 0 && infos[0].value is Ok {
        let rest = infos.skip(1);
        law_written_up_to_the_first_failure(rest);
        assert forall|i: int| 0 <= i < written(infos) implies (#[trigger] infos[i]).value is Ok by {
            if i > 0 {
                assert(rest[i - 1] == infos[i]);
            }
        }
    }
}

/// A pair is the name and the state of its instance, unchanged.
pub proof fn law_pair_is_name_and_state(
    info: InstanceInfo,
    name: String,
    value: String,
    pairs: Seq<KeyValuePair>,
    i: int,
)
    requires
        info.name == Some(name),
        info.value == Ok::<String, String>(value),
        0 <= i < pairs.len(),
    ensures
        info_pair(info) == (name@, value@),
        pair_views(pairs).len() == pairs.len(),
        pair_views(pairs)[i] == (pairs[i].key@, pairs[i].value@),
{
}

} // verus!
