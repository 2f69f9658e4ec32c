//! Chat rooms list the latest of their messages, a page at a time.
use crate::agents::ForAgent;
use crate::endpoints::{Assigned, AssignedView, Assignments, AssignmentsView};
use crate::errors::{AtomicError, AtomicResult, ErrorView};
use crate::numbers::parse_i64;
use crate::query::Query;
use crate::text::same;
use crate::urls;
use crate::values::{DataType, DataTypeView, PropValue, PropValueView};
use vstd::prelude::*;

verus! {

/// The number of messages on a page.
pub const PAGE_LIMIT: usize = 50;

/// The time before which messages are listed: what the last parameter for it says, or now. The
/// first one that is no time is an error.
pub open spec fn start_time(pairs: Seq<(Seq<char>, Seq<char>)>, now: int) -> Result<int, ErrorView>
    decreases pairs.len(),
{
    if pairs.len() == 0 {
        Ok(now)
    } else {
        match start_time(pairs.drop_last(), now) {
            Err(e) => Err(e),
            Ok(before) => if pairs.last().0 == "before-timestamp"@ {
                match crate::numbers::parsed_int(pairs.last().1) {
                    Some(n) => if i64::MIN <= n <= i64::MAX {
                        Ok(n)
                    } else {
                        Err(
                            crate::errors::other(
                                crate::numbers::int_complaint(pairs.last().1),
                            ),
                        )
                    },
                    None => Err(
                        crate::errors::other(crate::numbers::int_complaint(pairs.last().1)),
                    ),
                }
            } else {
                Ok(before)
            },
        }
    }
}

proof fn lemma_start_stops(pairs: Seq<(Seq<char>, Seq<char>)>, now: int, n: int)
    requires
        0 <= n <= pairs.len(),
        start_time(pairs.take(n), now) is Err,
    ensures
        start_time(pairs, now) == start_time(pairs.take(n), now),
    decreases pairs.len() - n,
{
    if n < pairs.len() {
        assert(pairs.take(n + 1).drop_last() =~= pairs.take(n));
        lemma_start_stops(pairs, now, n + 1);
    } else {
        assert(pairs.take(n) =~= pairs);
    }
}

/// The time before which messages are listed.
pub fn read_start(pairs: &Vec<(String, String)>, now: i64) -> (r: AtomicResult<i64>)
    ensures
        match r {
            Ok(t) => start_time(crate::address::pairs_view(pairs@), now as int) == Ok::<
                int,
                ErrorView,
            >(t as int),
            Err(e) => start_time(crate::address::pairs_view(pairs@), now as int) == Err::<
                int,
                ErrorView,
            >(e@),
        },
{
    let ghost all = crate::address::pairs_view(pairs@);
    let mut start = now;
    let mut i: usize = 0;
    assert(all.take(0) =~= Seq::empty());
    while i < pairs.len()
        invariant
            i <= pairs@.len(),
            all == crate::address::pairs_view(pairs@),
            start_time(all.take(i as int), now as int) == Ok::<int, ErrorView>(start as int),
        decreases pairs@.len() - i,
    {
        assert(all.take(i + 1).drop_last() =~= all.take(i as int));
        assert(all.take(i + 1).last() == (pairs@[i as int].0@, pairs@[i as int].1@));
        if same(pairs[i].0.as_str(), "before-timestamp") {
            match parse_i64(pairs[i].1.as_str()) {
                Ok(t) => {
                    start = t;
                },
                Err(complaint) => {
                    proof {
                        lemma_start_stops(all, now as int, i + 1);
                    }
                    return Err(AtomicError::other_error(complaint));
                },
            }
        }
        i += 1;
    }
    assert(all.take(i as int) =~= all);
    Ok(start)
}

/// The query for the messages of a chat room: the latest ones before a time. It asks for one more
/// than a page holds, to see whether there are more.
pub fn messages_query(subject: &str, start: i64, for_agent: &ForAgent) -> (q: Query)
    ensures
        crate::text::opt(q.property) == Some(urls::PARENT@),
        q.value is Some && q.value->0@ == (PropValueView::Literal {
            text: subject@,
            datatype: DataTypeView::AtomicUrl,
        }),
        q.limit == Some((PAGE_LIMIT + 1) as usize),
        q.start_val is None,
        q.end_val is Some && q.end_val->0@ == (PropValueView::Literal {
            text: crate::numbers::signed_decimal(start as int),
            datatype: DataTypeView::Timestamp,
        }),
        q.offset == 0,
        crate::text::opt(q.sort_by) == Some(urls::CREATED_AT@),
        q.sort_desc,
        !q.include_external,
        q.include_nested,
        q.for_agent == *for_agent,
{
    Query {
        property: Some(urls::PARENT.to_owned()),
        value: Some(
            PropValue::Literal { text: subject.to_owned(), datatype: DataType::AtomicUrl },
        ),
        limit: Some(PAGE_LIMIT + 1),
        start_val: None,
        end_val: Some(
            PropValue::Literal {
                text: crate::numbers::write_i64(start),
                datatype: DataType::Timestamp,
            },
        ),
        offset: 0,
        sort_by: Some(urls::CREATED_AT.to_owned()),
        sort_desc: true,
        include_external: false,
        include_nested: true,
        for_agent: for_agent.copy(),
    }
}

/// The last message of a page, where there is a page after it: the next page starts before it.
pub fn last_of_page(count: usize, resources: &Vec<String>) -> (r: AtomicResult<Option<String>>)
    ensures
        if count <= PAGE_LIMIT {
            r == Ok::<Option<String>, AtomicError>(None)
        } else if resources@.len() == 0 {
            r is Err && r->Err_0@ == crate::errors::other(
                "There are more messages than the page limit"@,
            )
        } else {
            r is Ok && crate::text::opt(r->Ok_0) == Some(resources@.last()@)
        },
{
    if count > PAGE_LIMIT {
        let n: usize = resources.len();
        if n == 0 {
            Err(
                AtomicError::other_error("There are more messages than the page limit".to_owned()),
            )
        } else {
            Ok(Some(resources[n - 1].clone()))
        }
    } else {
        Ok(None)
    }
}

/// The address of the next page, from the time of the last message.
pub fn next_page_url(subject: &str, last_timestamp: &str) -> (r: AtomicResult<String>)
    requires
        subject@.len() + 16 + last_timestamp@.len() < 0x1000_0000,
    ensures
        match r {
            Ok(url) => crate::address::url_with_param(
                subject@,
                "before-timestamp"@,
                last_timestamp@,
            ) == Ok::<Seq<char>, Seq<char>>(url@),
            Err(e) => crate::address::url_with_param(
                subject@,
                "before-timestamp"@,
                last_timestamp@,
            ) is Err && e@ == crate::errors::other(
                crate::address::url_with_param(
                    subject@,
                    "before-timestamp"@,
                    last_timestamp@,
                )->Err_0,
            ),
        },
{
    proof {
        reveal_strlit("before-timestamp");
    }
    crate::address::with_param(subject, "before-timestamp", last_timestamp)
}

/// The messages of a page from old to new, as clients expect them. The query gives them from new
/// to old.
pub fn order_messages(subjects: &Vec<String>) -> (r: Vec<String>)
    ensures
        crate::text::list(r@) == crate::text::list(subjects@).reverse(),
{
    let mut r: Vec<String> = Vec::new();
    let mut i: usize = subjects.len();
    let ghost all = crate::text::list(subjects@);
    while i > 0
        invariant
            i <= subjects@.len(),
            all == crate::text::list(subjects@),
            r@.len() == subjects@.len() - i,
            forall|k: int| 0 <= k < r@.len() ==> (#[trigger] r@[k])@ == all[all.len() - 1 - k],
        decreases i,
    {
        i -= 1;
        r.push(subjects[i].clone());
    }
    assert(crate::text::list(r@) =~= all.reverse());
    r
}

/// What is set on a chat room: the address of the next page, where there is one, and the messages
/// of this page from old to new. `resources` are the messages that were found, `last_timestamp` is
/// the time of the last of them.
pub open spec fn chatroom_of(
    subject: Seq<char>,
    count: nat,
    resources: Seq<Seq<char>>,
    subjects: Seq<Seq<char>>,
    last_timestamp: Result<Seq<char>, ErrorView>,
) -> Result<AssignmentsView, ErrorView> {
    let messages = (urls::MESSAGES@, AssignedView::Subjects(subjects.reverse()));
    if count <= PAGE_LIMIT {
        Ok(AssignmentsView { subject, values: seq![messages] })
    } else if resources.len() == 0 {
        Err(crate::errors::other("There are more messages than the page limit"@))
    } else {
        match last_timestamp {
            Err(e) => Err(e),
            Ok(time) => match crate::address::url_with_param(subject, "before-timestamp"@, time) {
                Err(complaint) => Err(crate::errors::other(complaint)),
                Ok(url) => Ok(
                    AssignmentsView {
                        subject,
                        values: seq![(urls::NEXT_PAGE@, AssignedView::Url(url)), messages],
                    },
                ),
            },
        }
    }
}

/// What a text that may be missing says.
pub open spec fn text_outcome(r: AtomicResult<String>) -> Result<Seq<char>, ErrorView> {
    match r {
        Ok(text) => Ok(text@),
        Err(e) => Err(e@),
    }
}

/// Works out what is set on a chat room.
pub fn construct_chatroom(
    subject: &str,
    count: usize,
    resources: &Vec<String>,
    subjects: &Vec<String>,
    last_timestamp: AtomicResult<String>,
) -> (r: AtomicResult<Assignments>)
    requires
        count > PAGE_LIMIT ==> (last_timestamp matches Ok(time) ==> subject@.len() + 16 + time@.len()
            < 0x1000_0000),
    ensures
        (match r {
            Ok(assignments) => Ok::<AssignmentsView, ErrorView>(assignments@),
            Err(e) => Err::<AssignmentsView, ErrorView>(e@),
        }) == chatroom_of(
            subject@,
            count as nat,
            crate::text::list(resources@),
            crate::text::list(subjects@),
            text_outcome(last_timestamp),
        ),
{
    let mut values: Vec<(&'static str, Assigned)> = Vec::new();
    match last_of_page(count, resources) {
        Err(e) => {
            return Err(e);
        },
        Ok(Some(_)) => {
            let time = match last_timestamp {
                Ok(time) => time,
                Err(e) => {
                    return Err(e);
                },
            };
            match next_page_url(subject, time.as_str()) {
                Ok(url) => {
                    values.push((urls::NEXT_PAGE, Assigned::Url(url)));
                },
                Err(e) => {
                    return Err(e);
                },
            }
        },
        Ok(None) => {},
    }
    let ghost before = values@;
    values.push((urls::MESSAGES, Assigned::Subjects(order_messages(subjects))));
    let r = Assignments { subject: subject.to_owned(), values };
    proof {
        let messages = (
            urls::MESSAGES@,
            AssignedView::Subjects(crate::text::list(subjects@).reverse()),
        );
        if count <= PAGE_LIMIT {
            assert(r@.values =~= seq![messages]);
        } else {
            assert(r@.values =~= seq![(before[0].0@, before[0].1@), messages]);
        }
    }
    Ok(r)
}

/// The chat room that is told of a message. Only new messages are told, not changes to them.
pub fn after_apply_commit_message(previous_commit: &Option<String>, parent: AtomicResult<String>) -> (r:
    AtomicResult<Option<String>>)
    ensures
        if previous_commit is Some {
            r == Ok::<Option<String>, AtomicError>(None)
        } else {
            match parent {
                Ok(p) => r == Ok::<Option<String>, AtomicError>(Some(p)),
                Err(_) => r is Err && r->Err_0@ == crate::errors::other(
                    "Message must have a Parent!"@,
                ),
            }
        },
{
    if previous_commit.is_some() {
        return Ok(None);
    }
    match parent {
        Ok(p) => Ok(Some(p)),
        Err(_) => Err(AtomicError::other_error("Message must have a Parent!".to_owned())),
    }
}

/// The last parameter for the time says from when on messages are listed, where all of them are
/// times; without one it is now. A parameter for the time that is none is an error.
pub proof fn the_last_time_counts(pairs: Seq<(Seq<char>, Seq<char>)>, now: int, i: int)
    requires
        -1 <= i < pairs.len(),
        i >= 0 ==> pairs[i].0 == "before-timestamp"@,
        forall|j: int| i < j < pairs.len() ==> (#[trigger] pairs[j]).0 != "before-timestamp"@,
    ensures
        (exists|j: int|
            0 <= j < pairs.len() && (#[trigger] pairs[j]).0 == "before-timestamp"@
                && !is_time(pairs[j].1)) <==> start_time(pairs, now) is Err,
        start_time(pairs, now) is Ok && i >= 0 ==> crate::numbers::parsed_int(pairs[i].1) == Some(
            start_time(pairs, now)->Ok_0,
        ),
        i < 0 ==> start_time(pairs, now) == Ok::<int, ErrorView>(now),
    decreases pairs.len(),
{
    if pairs.len() > 0 {
        let before = pairs.drop_last();
        let last = pairs.len() - 1;
        if i < last {
            assert forall|j: int| i < j < before.len() implies (#[trigger] before[j]).0
                != "before-timestamp"@ by {
                assert(before[j] == pairs[j]);
            }
            assert(pairs[last].0 != "before-timestamp"@);
            the_last_time_counts(before, now, i);
        } else {
            let k = last_time(before, before.len());
            lemma_last_time(before, before.len());
            the_last_time_counts(before, now, k);
        }
        if exists|j: int|
            0 <= j < before.len() && (#[trigger] before[j]).0 == "before-timestamp"@ && !is_time(
                before[j].1,
            ) {
            let j = choose|j: int|
                0 <= j < before.len() && (#[trigger] before[j]).0 == "before-timestamp"@
                    && !is_time(before[j].1);
            assert(pairs[j] == before[j]);
        }
        if exists|j: int|
            0 <= j < pairs.len() && (#[trigger] pairs[j]).0 == "before-timestamp"@ && !is_time(
                pairs[j].1,
            ) {
            let j = choose|j: int|
                0 <= j < pairs.len() && (#[trigger] pairs[j]).0 == "before-timestamp"@ && !is_time(
                    pairs[j].1,
                );
            if j < last {
                assert(before[j] == pairs[j]);
            }
        }
        if pairs.last().0 == "before-timestamp"@ && !is_time(pairs.last().1) {
            assert(pairs[last].0 == "before-timestamp"@);
        }
    }
}

/// Whether a text is a time.
pub open spec fn is_time(text: Seq<char>) -> bool {
    crate::numbers::parsed_int(text) matches Some(n) && i64::MIN <= n <= i64::MAX
}

spec fn last_time(pairs: Seq<(Seq<char>, Seq<char>)>, n: nat) -> int
    decreases n,
{
    if n == 0 || n > pairs.len() {
        -1
    } else if pairs[n - 1].0 == "before-timestamp"@ {
        n - 1
    } else {
        last_time(pairs, (n - 1) as nat)
    }
}

proof fn lemma_last_time(pairs: Seq<(Seq<char>, Seq<char>)>, n: nat)
    requires
        n <= pairs.len(),
    ensures
        -1 <= last_time(pairs, n) < n,
        last_time(pairs, n) >= 0 ==> pairs[last_time(pairs, n)].0 == "before-timestamp"@,
        forall|j: int|
            last_time(pairs, n) < j < n ==> (#[trigger] pairs[j]).0 != "before-timestamp"@,
    decreases n,
{
    if n > 0 && pairs[n - 1].0 != "before-timestamp"@ {
        lemma_last_time(pairs, (n - 1) as nat);
    }
}

/// A chat room shows the messages that were found, from the last one found to the first, under its
/// own address. Where there are more than fit on a page, and only there, it shows where the next page
/// is: at its address, with the time of the last message found.
pub proof fn chat_rooms_show_their_messages(
    subject: Seq<char>,
    count: nat,
    resources: Seq<Seq<char>>,
    subjects: Seq<Seq<char>>,
    last_timestamp: Result<Seq<char>, ErrorView>,
    i: int,
)
    ensures
        count <= PAGE_LIMIT ==> chatroom_of(
            subject,
            count,
            resources,
            subjects,
            last_timestamp,
        ) is Ok,
        count > PAGE_LIMIT && resources.len() > 0 && (last_timestamp matches Ok(time)
            && crate::address::url_with_param(subject, "before-timestamp"@, time) is Ok)
            ==> chatroom_of(subject, count, resources, subjects, last_timestamp) is Ok,
        chatroom_of(subject, count, resources, subjects, last_timestamp) matches Ok(room) ==> {
            let shown = room.values.last();
            &&& room.subject == subject
            &&& shown.0 == urls::MESSAGES@
            &&& shown.1 matches AssignedView::Subjects(messages) && messages.len()
                == subjects.len() && (0 <= i < subjects.len() ==> messages[i]
                == subjects[subjects.len() - 1 - i])
            &&& room.values.len() == (if count > PAGE_LIMIT {
                2nat
            } else {
                1nat
            })
            &&& count > PAGE_LIMIT ==> room.values[0].0 == urls::NEXT_PAGE@ && (last_timestamp
                matches Ok(time) && (room.values[0].1 matches AssignedView::Url(url)
                && crate::address::url_with_param(subject, "before-timestamp"@, time) == Ok::<
                Seq<char>,
                Seq<char>,
            >(url)))
        },
{
}

/// The first parameter for the time that is no time is what is complained about.
pub proof fn the_first_bad_time_is_the_error(
    pairs: Seq<(Seq<char>, Seq<char>)>,
    now: int,
    i: int,
)
    requires
        0 <= i < pairs.len(),
        pairs[i].0 == "before-timestamp"@,
        !is_time(pairs[i].1),
        forall|j: int|
            0 <= j < i ==> ((#[trigger] pairs[j]).0 == "before-timestamp"@ ==> is_time(pairs[j].1)),
    ensures
        start_time(pairs, now) == Err::<int, ErrorView>(
            crate::errors::other(crate::numbers::int_complaint(pairs[i].1)),
        ),
{
    let before = pairs.take(i);
    lemma_last_time(before, before.len());
    the_last_time_counts(before, now, last_time(before, before.len()));
    assert forall|j: int| 0 <= j < before.len() && (#[trigger] before[j]).0
        == "before-timestamp"@ implies is_time(before[j].1) by {
        assert(before[j] == pairs[j]);
    }
    let upto = pairs.take(i + 1);
    assert(upto.drop_last() =~= before);
    assert(upto.last() == pairs[i]);
    lemma_start_stops(pairs, now, i + 1);
}

} // verus!
