//! The index of articles: one record for each, the newest first.

use std::collections::VecDeque;
use vstd::prelude::*;
use vstd::string::StringExecFns;
use crate::model::views;

verus! {

/// The record of one article.
#[derive(Debug, PartialEq)]
pub struct Data {
    /// The name by which the article is found.
    pub slug: String,
    pub title: String,
    /// The day the record was made.
    pub created_at: String,
}

/// What a record is, as a value of specifications.
pub struct Record {
    pub slug: Seq<char>,
    pub title: Seq<char>,
    pub created_at: Seq<char>,
}

impl View for Data {
    type V = Record;

    open spec fn view(&self) -> Record {
        Record { slug: self.slug@, title: self.title@, created_at: self.created_at@ }
    }
}

/// The place of the first record at or after `from` with the given slug, or
/// the number of records where there is none.
pub open spec fn find_slug(data: Seq<Record>, slug: Seq<char>, from: int) -> int
    decreases data.len() - from,
{
    if from < 0 || from >= data.len() || data[from].slug == slug {
        from
    } else {
        find_slug(data, slug, from + 1)
    }
}

/// Whether a record has the given slug.
pub open spec fn has_slug(data: Seq<Record>, slug: Seq<char>) -> bool {
    find_slug(data, slug, 0) < data.len()
}

/// The index after an article was written: the first record with its slug
/// has the new title and is otherwise as it was; where there was no such
/// record, a new one of this day stands in front.
pub open spec fn upserted(
    data: Seq<Record>,
    slug: Seq<char>,
    title: Seq<char>,
    today: Seq<char>,
) -> Seq<Record> {
    let i = find_slug(data, slug, 0);
    if i < data.len() {
        data.update(i, Record { title: title, ..data[i] })
    } else {
        seq![Record { slug: slug, title: title, created_at: today }] + data
    }
}

/// The day an article's record was made: that of the first record with its
/// slug, or this day where there is none yet.
pub open spec fn date_of(data: Seq<Record>, slug: Seq<char>, today: Seq<char>) -> Seq<char> {
    let i = find_slug(data, slug, 0);
    if i < data.len() {
        data[i].created_at
    } else {
        today
    }
}

/// Where the search for a slug ends, and what it has passed.
pub proof fn lemma_find_slug(data: Seq<Record>, slug: Seq<char>, from: int)
    requires
        0 <= from <= data.len(),
    ensures
        from <= find_slug(data, slug, from) <= data.len(),
        find_slug(data, slug, from) < data.len() ==> data[find_slug(data, slug, from)].slug
            == slug,
        forall|k: int| from <= k < find_slug(data, slug, from) ==> (#[trigger] data[k]).slug != slug,
    decreases data.len() - from,
{
    if from < data.len() && data[from].slug != slug {
        lemma_find_slug(data, slug, from + 1);
    }
}

/// The place of the first record with the given slug, or the number of
/// records.
fn position(data: &VecDeque<Data>, slug: &String) -> (i: usize)
    ensures
        i == find_slug(views(data@), slug@, 0),
        i <= data.len(),
{
    let mut i: usize = 0;
    while i < data.len() && !(data[i].slug == *slug)
        invariant
            i <= data.len(),
            find_slug(views(data@), slug@, 0) == find_slug(views(data@), slug@, i as int),
        decreases data.len() - i,
    {
        i += 1;
    }
    i
}

/// Writes an article into the index, with `today` as the day for a new
/// record, and gives the day the article's record was made.
pub fn upsert_with_date(data: &mut VecDeque<Data>, slug: &str, title: &str, today: &str) -> (date:
    String)
    ensures
        views(final(data)@) == upserted(views(old(data)@), slug@, title@, today@),
        date@ == date_of(views(old(data)@), slug@, today@),
{
    let key = String::from_str(slug);
    let i = position(data, &key);
    if i < data.len() {
        let article = data.remove(i).unwrap();
        let date = article.created_at.clone();
        let changed = Data {
            slug: article.slug,
            title: String::from_str(title),
            created_at: article.created_at,
        };
        data.insert(i, changed);
        assert(views(data@) =~= upserted(views(old(data)@), slug@, title@, today@));
        date
    } else {
        let added = Data {
            slug: key,
            title: String::from_str(title),
            created_at: String::from_str(today),
        };
        data.push_front(added);
        assert(views(data@) =~= upserted(views(old(data)@), slug@, title@, today@));
        String::from_str(today)
    }
}

/// The time it is by the local clock, written as `format` says:
/// `chrono::Local::now`, then `format` and `to_string` of the `chrono` crate.
/// Only the format of year, month and day is taken, which that crate knows.
/// The result depends on when it is asked for, so nothing is said of it.
#[verifier::external_body]
fn local_time(format: &str) -> String
    requires
        format@ == "%Y-%m-%d"@,
{
    chrono::Local::now().format(format).to_string()
}

/// Writes an article into the index and gives the day the article's record
/// was made. A new record is of the day it is by the local clock, as year,
/// month and day with `-` in between; the clock is asked only then.
pub fn upsert(data: &mut VecDeque<Data>, slug: &str, title: &str) -> (date: String)
    ensures
        views(final(data)@) == upserted(views(old(data)@), slug@, title@, date@),
        date@ == date_of(views(old(data)@), slug@, date@),
{
    let key = String::from_str(slug);
    if position(data, &key) < data.len() {
        upsert_with_date(data, slug, title, "")
    } else {
        let day = local_time("%Y-%m-%d");
        upsert_with_date(data, slug, title, day.as_str())
    }
}

/// The number of records with the given slug.
pub open spec fn count_slug(data: Seq<Record>, slug: Seq<char>) -> nat
    decreases data.len(),
{
    if data.len() == 0 {
        0
    } else {
        count_slug(data.drop_last(), slug) + if data.last().slug == slug {
            1nat
        } else {
            0nat
        }
    }
}

/// A record that gets another title counts as before.
pub proof fn lemma_count_slug_update(data: Seq<Record>, slug: Seq<char>, i: int, title: Seq<char>)
    requires
        0 <= i < data.len(),
    ensures
        count_slug(data.update(i, Record { title: title, ..data[i] }), slug) == count_slug(
            data,
            slug,
        ),
    decreases data.len(),
{
    let changed = data.update(i, Record { title: title, ..data[i] });
    if i == data.len() - 1 {
        assert(changed.drop_last() =~= data.drop_last());
    } else {
        lemma_count_slug_update(data.drop_last(), slug, i, title);
        assert(changed.drop_last() =~= data.drop_last().update(
            i,
            Record { title: title, ..data[i] },
        ));
    }
}

/// A slug that some record has is counted; one that none has is not.
pub proof fn lemma_count_slug_found(data: Seq<Record>, slug: Seq<char>)
    ensures
        has_slug(data, slug) <==> count_slug(data, slug) > 0,
    decreases data.len(),
{
    lemma_find_slug(data, slug, 0);
    if data.len() > 0 {
        let front = data.drop_last();
        lemma_count_slug_found(front, slug);
        lemma_find_slug(front, slug, 0);
        let i = find_slug(data, slug, 0);
        let j = find_slug(front, slug, 0);
        if j < front.len() {
            assert(data[j].slug == slug);
            assert(i <= j);
        } else if i < front.len() {
            assert(front[i].slug == slug);
        }
    }
}

/// A record in front counts once if it has the slug.
pub proof fn lemma_count_slug_front(data: Seq<Record>, slug: Seq<char>, record: Record)
    ensures
        count_slug(seq![record] + data, slug) == count_slug(data, slug) + if record.slug == slug {
            1nat
        } else {
            0nat
        },
    decreases data.len(),
{
    let all = seq![record] + data;
    if data.len() == 0 {
        assert(all.drop_last() =~= Seq::empty());
        assert(count_slug(all.drop_last(), slug) == 0);
        assert(all.last() == record);
    } else {
        lemma_count_slug_front(data.drop_last(), slug, record);
        assert(all.drop_last() =~= seq![record] + data.drop_last());
        assert(all.last() == data.last());
    }
}

/// Writing an article twice: the second time no record is added, only the
/// title of the article's record changes, the day of the record stays, and
/// as many records have the slug as after the first time: one, where at most
/// one had it at the start. With the same title the second time changes
/// nothing.
pub proof fn lemma_upsert_twice(
    data: Seq<Record>,
    slug: Seq<char>,
    first_title: Seq<char>,
    first_day: Seq<char>,
    second_title: Seq<char>,
    second_day: Seq<char>,
)
    ensures
        ({
            let once = upserted(data, slug, first_title, first_day);
            let twice = upserted(once, slug, second_title, second_day);
            let i = find_slug(once, slug, 0);
            &&& 0 <= i < once.len()
            &&& once[i].slug == slug
            &&& twice == once.update(i, Record { title: second_title, ..once[i] })
            &&& twice.len() == once.len()
            &&& twice[i].created_at == once[i].created_at
            &&& date_of(once, slug, second_day) == date_of(data, slug, first_day)
            &&& count_slug(twice, slug) == count_slug(once, slug)
            &&& count_slug(data, slug) <= 1 ==> count_slug(twice, slug) == 1
            &&& second_title == first_title ==> twice == once
        }),
{
    let once = upserted(data, slug, first_title, first_day);
    let found = find_slug(data, slug, 0);
    lemma_find_slug(data, slug, 0);
    lemma_find_slug(once, slug, 0);
    let i = find_slug(once, slug, 0);
    if found < data.len() {
        assert forall|k: int| 0 <= k < found implies (#[trigger] once[k]).slug != slug by {
            assert(once[k] == data[k]);
        }
        assert(once[found].slug == slug);
        if i < found {
            assert(once[i].slug == slug);
        }
        assert(i == found);
    } else {
        assert(once[0].slug == slug);
        assert(i == 0);
    }
    lemma_count_slug_update(once, slug, i, second_title);
    lemma_count_slug_found(data, slug);
    if found < data.len() {
        lemma_count_slug_update(data, slug, found, first_title);
    } else {
        lemma_count_slug_front(
            data,
            slug,
            Record { slug: slug, title: first_title, created_at: first_day },
        );
    }
    if second_title == first_title {
        assert(once.update(i, Record { title: second_title, ..once[i] }) =~= once);
    }
}

} // verus!
