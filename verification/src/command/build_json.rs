//! The records that a build of the journal writes as JSON, and the names of
//! the files into which they go.

use vstd::prelude::*;
use crate::data::date::Date;
use crate::data::entry::entries_ascend;
use crate::data::entry::EntryRecord;
use crate::graph::Backlinks;
use crate::site::build_index;
use crate::site::is_first_malformed;
use crate::site::is_index_of;
use crate::site::BuildError;
use crate::site::Related;
use crate::site::SiteIndex;
use crate::stamp::canonical_text;
use crate::stamp::Precision;
use crate::tags::texts;
use crate::tags::TagCount;
use crate::text::append_decimal;
use crate::text::decimal;
use crate::text::push_char;
use pulldown_cmark::html::push_html;
use pulldown_cmark::Parser;
use vstd::string::StringExecFns;

verus! {

/// The list of all entries.
pub struct AllJson(pub Vec<AllJsonItem>);

/// What the list of all entries says of one entry.
pub struct AllJsonItem {
    /// The date, as `YYYY-MM-DD`.
    pub date: String,
    /// The minutes that the entry took to write.
    pub minutes: u32,
    /// When the entry was published, as `YYYY-MM-DDTHH:MM:SSZ`.
    pub pubdate: String,
    /// The tags, each once.
    pub tags: Vec<String>,
    /// The title.
    pub title: String,
}

/// The record of one entry.
pub struct DailyJson {
    /// The text of the entry, in Markdown.
    pub data: String,
    /// The date, as `YYYY-MM-DD`.
    pub date: String,
    /// The minutes that the entry took to write.
    pub minutes: u32,
    /// The text of the entry, as HTML.
    pub html: String,
    /// The title beside the date, if the entry has one.
    pub id_title: Option<String>,
    /// When the entry was published, as `YYYY-MM-DDTHH:MM:SSZ`.
    pub pubdate: String,
    /// The tags, each once.
    pub tags: Vec<String>,
    /// The title.
    pub title: String,
}

/// The list of all tags.
pub struct TagsJson(pub Vec<TagsJsonItem>);

/// A tag with the number of entries that carry it.
pub struct TagsJsonItem {
    /// The tag.
    pub name: String,
    /// The number of entries that carry the tag.
    pub count: u32,
}

/// The dates that stand in the record of one entry, each as `YYYY-MM-DD`.
pub struct RelatedJson {
    /// The dates of the entries that name this one, the earliest first.
    pub inbound: Vec<String>,
    /// The dates of up to four entries after this one, the farthest first.
    pub next: Vec<String>,
    /// The dates that this entry names, the earliest first.
    pub outbound: Vec<String>,
    /// The dates of up to four entries before this one, the nearest first.
    pub prev: Vec<String>,
    /// The dates of the entries of the same day of other years.
    pub same: Vec<String>,
}

/// A date that is named, with the dates of the entries that name it.
pub struct LinkedJsonItem {
    /// The date that is named, as `YYYY-MM-DD`.
    pub date: String,
    /// The dates of the entries that name it, the earliest first.
    pub sources: Vec<String>,
}

/// The HTML that `pulldown_cmark` renders for a text in Markdown.
pub uninterp spec fn rendered_html(markdown: Seq<char>) -> Seq<char>;

/// Renders Markdown as HTML: `pulldown_cmark::html::push_html` on the
/// events of `pulldown_cmark::Parser::new`, into an empty string.
#[verifier::external_body]
pub(crate) fn markdown_to_html(markdown: &str) -> (r: String)
    ensures
        r@ == rendered_html(markdown@),
{
    let mut html_output = String::new();
    push_html(&mut html_output, Parser::new(markdown));
    html_output
}

/// The texts of `dates`, in their order.
pub open spec fn date_texts(dates: Seq<Date>) -> Seq<Seq<char>> {
    Seq::new(dates.len(), |i: int| dates[i].text())
}

/// The text list without what came before in it: each text once, at the
/// place where it comes first.
pub open spec fn distinct(list: Seq<Seq<char>>) -> Seq<Seq<char>>
    decreases list.len(),
{
    if list.len() == 0 {
        Seq::empty()
    } else if list.drop_last().contains(list.last()) {
        distinct(list.drop_last())
    } else {
        distinct(list.drop_last()).push(list.last())
    }
}

/// The path of the directory of a date, as `YYYY/MM/DD`.
pub open spec fn date_path(date: Date) -> Seq<char> {
    decimal(date.spec_year(), 4) + seq!['/'] + decimal(date.spec_month(), 2) + seq!['/'] + decimal(
        date.spec_day(),
        2,
    )
}

/// The title beside the date, or `diary` where the entry has none.
pub open spec fn id_title_or_default(id_title: Option<String>) -> Seq<char> {
    match id_title {
        Some(t) => t@,
        None => "diary"@,
    }
}

/// The names of the four files that hold the record of an entry.
pub open spec fn daily_names(date: Date, id_title: Option<String>) -> Seq<Seq<char>> {
    let dir = date_path(date);
    let id = id_title_or_default(id_title);
    seq![
        dir + ".json"@,
        dir + "/index.json"@,
        dir + seq!['/'] + id + ".json"@,
        dir + seq!['/'] + id + "/index.json"@,
    ]
}

/// The names of the two files that hold the related dates of an entry.
pub open spec fn related_names(date: Date) -> Seq<Seq<char>> {
    let dir = date_path(date);
    seq![dir + "/related.json"@, dir + "/related/index.json"@]
}

/// `item` is what the list of all entries says of `entry`.
pub open spec fn is_all_item_of(item: AllJsonItem, entry: EntryRecord) -> bool {
    &&& item.date@ == entry.key.date.text()
    &&& item.minutes == entry.minutes
    &&& item.pubdate@ == canonical_text(Precision::Seconds, entry.pubdate@)
    &&& texts(item.tags@) == distinct(texts(entry.tags@))
    &&& item.title@ == entry.title@
}

/// `daily` is the record of `entry`.
pub open spec fn is_daily_of(daily: DailyJson, entry: EntryRecord) -> bool {
    &&& daily.data@ == entry.body@
    &&& daily.date@ == entry.key.date.text()
    &&& daily.minutes == entry.minutes
    &&& daily.html@ == rendered_html(entry.body@)
    &&& daily.id_title == entry.key.id_title
    &&& daily.pubdate@ == canonical_text(Precision::Seconds, entry.pubdate@)
    &&& texts(daily.tags@) == distinct(texts(entry.tags@))
    &&& daily.title@ == entry.title@
}

/// `json` holds the dates of `related`, each as its text.
pub open spec fn is_related_json_of(json: RelatedJson, related: Related) -> bool {
    &&& texts(json.inbound@) == date_texts(related.inbound@)
    &&& texts(json.next@) == date_texts(related.next@)
    &&& texts(json.outbound@) == date_texts(related.outbound@)
    &&& texts(json.prev@) == date_texts(related.prev@)
    &&& texts(json.same@) == date_texts(related.same@)
}

/// `items` holds the tags of `tags` with their counts, in their order.
pub open spec fn are_tag_items_of(items: Seq<TagsJsonItem>, tags: Seq<TagCount>) -> bool {
    &&& items.len() == tags.len()
    &&& forall|i: int|
        0 <= i < tags.len() ==> (#[trigger] items[i]).name@ == tags[i].name@ && items[i].count
            == tags[i].count
}

/// `items` holds the dates of `backlinks` and of their sources, each as its
/// text, in their order.
pub open spec fn are_linked_items_of(items: Seq<LinkedJsonItem>, backlinks: Seq<Backlinks>) -> bool {
    &&& items.len() == backlinks.len()
    &&& forall|i: int|
        0 <= i < backlinks.len() ==> (#[trigger] items[i]).date@ == backlinks[i].date.text()
            && texts(items[i].sources@) == date_texts(backlinks[i].sources@)
}

/// The strings of `list`, each once, at the place where it comes first.
pub fn distinct_strings(list: &Vec<String>) -> (r: Vec<String>)
    ensures
        texts(r@) == distinct(texts(list@)),
{
    let ghost all = texts(list@);
    let mut r: Vec<String> = Vec::new();
    let mut i: usize = 0;
    while i < list.len()
        invariant
            i <= list.len(),
            all == texts(list@),
            texts(r@) == distinct(all.take(i as int)),
        decreases list.len() - i,
    {
        let earlier = crate::tags::occurs_before(list, i);
        proof {
            let a = all.take(i + 1);
            assert(a.drop_last() == all.take(i as int));
            assert(a.last() == all[i as int]);
            assert(all[i as int] == list@[i as int]@);
        }
        if !earlier {
            let ghost before = texts(r@);
            r.push(list[i].clone());
            assert(texts(r@) == before.push(list@[i as int]@));
        }
        i = i + 1;
    }
    assert(all.take(list.len() as int) == all);
    r
}

/// The texts of the dates, each as `YYYY-MM-DD`, in their order.
pub fn date_strings(dates: &Vec<Date>) -> (r: Vec<String>)
    ensures
        texts(r@) == date_texts(dates@),
{
    let mut r: Vec<String> = Vec::new();
    let mut i: usize = 0;
    while i < dates.len()
        invariant
            i <= dates.len(),
            texts(r@) == date_texts(dates@).take(i as int),
        decreases dates.len() - i,
    {
        let ghost before = texts(r@);
        let s = dates[i].to_string();
        r.push(s);
        assert(texts(r@) == before.push(dates@[i as int].text()));
        assert(date_texts(dates@).take(i + 1) == date_texts(dates@).take(i as int).push(
            dates@[i as int].text(),
        ));
        i = i + 1;
    }
    assert(date_texts(dates@).take(dates.len() as int) == date_texts(dates@));
    r
}

/// Appends the path of the directory of a date, as `YYYY/MM/DD`.
pub fn append_date_path(out: &mut String, date: &Date)
    ensures
        final(out)@ == old(out)@ + date_path(*date),
{
    append_decimal(out, date.year() as u32, 4);
    push_char(out, '/');
    append_decimal(out, date.month() as u32, 2);
    push_char(out, '/');
    append_decimal(out, date.day_of_month() as u32, 2);
    assert(out@ == old(out)@ + date_path(*date));
}

/// The names of the four files that hold the record of an entry: two
/// under its date, and two under its date and its title.
pub fn daily_json_file_names(date: &Date, id_title: &Option<String>) -> (r: Vec<String>)
    ensures
        texts(r@) == daily_names(*date, *id_title),
{
    let mut dir = String::new();
    append_date_path(&mut dir, date);
    let mut with_id = dir.clone();
    push_char(&mut with_id, '/');
    match id_title {
        Some(t) => {
            with_id.append(t.as_str());
        },
        None => {
            with_id.append("diary");
        },
    }
    assert(with_id@ == date_path(*date) + seq!['/'] + id_title_or_default(*id_title));
    let mut a = dir.clone();
    a.append(".json");
    let mut b = dir;
    b.append("/index.json");
    let mut c = with_id.clone();
    c.append(".json");
    let mut d = with_id;
    d.append("/index.json");
    let mut r: Vec<String> = Vec::new();
    r.push(a);
    r.push(b);
    r.push(c);
    r.push(d);
    assert(texts(r@) =~= daily_names(*date, *id_title));
    r
}

/// The names of the two files that hold the related dates of an entry.
pub fn related_json_file_names(date: &Date) -> (r: Vec<String>)
    ensures
        texts(r@) == related_names(*date),
{
    let mut dir = String::new();
    append_date_path(&mut dir, date);
    let mut a = dir.clone();
    a.append("/related.json");
    let mut b = dir;
    b.append("/related/index.json");
    let mut r: Vec<String> = Vec::new();
    r.push(a);
    r.push(b);
    assert(texts(r@) =~= related_names(*date));
    r
}

/// What the list of all entries says of `entry`.
pub fn all_json_item(entry: &EntryRecord) -> (r: AllJsonItem)
    ensures
        is_all_item_of(r, *entry),
{
    AllJsonItem {
        date: entry.key.date.to_string(),
        minutes: entry.minutes,
        pubdate: entry.pubdate.to_string(),
        tags: distinct_strings(&entry.tags),
        title: entry.title.clone(),
    }
}

/// The record of `entry`.
pub fn daily_json(entry: &EntryRecord) -> (r: DailyJson)
    ensures
        is_daily_of(r, *entry),
{
    DailyJson {
        data: entry.body.clone(),
        date: entry.key.date.to_string(),
        minutes: entry.minutes,
        html: markdown_to_html(entry.body.as_str()),
        id_title: entry.key.id_title.clone(),
        pubdate: entry.pubdate.to_string(),
        tags: distinct_strings(&entry.tags),
        title: entry.title.clone(),
    }
}

/// The related dates of an entry, each as `YYYY-MM-DD`.
pub fn related_json(related: &Related) -> (r: RelatedJson)
    ensures
        is_related_json_of(r, *related),
{
    RelatedJson {
        inbound: date_strings(&related.inbound),
        next: date_strings(&related.next),
        outbound: date_strings(&related.outbound),
        prev: date_strings(&related.prev),
        same: date_strings(&related.same),
    }
}

/// The list of all tags, in the order of `tags`.
pub fn tags_json(tags: Vec<TagCount>) -> (r: TagsJson)
    ensures
        are_tag_items_of(r.0@, tags@),
{
    let mut items: Vec<TagsJsonItem> = Vec::new();
    let mut i: usize = 0;
    while i < tags.len()
        invariant
            i <= tags.len(),
            items@.len() == i,
            forall|j: int|
                0 <= j < i ==> (#[trigger] items@[j]).name@ == tags@[j].name@ && items@[j].count
                    == tags@[j].count,
        decreases tags.len() - i,
    {
        items.push(TagsJsonItem { name: tags[i].name.clone(), count: tags[i].count });
        i = i + 1;
    }
    TagsJson(items)
}

/// The dates that are named, each with the dates that name it, all as
/// `YYYY-MM-DD`, in the order of `backlinks`.
pub fn linked_json(backlinks: &Vec<Backlinks>) -> (r: Vec<LinkedJsonItem>)
    ensures
        are_linked_items_of(r@, backlinks@),
{
    let mut r: Vec<LinkedJsonItem> = Vec::new();
    let mut i: usize = 0;
    while i < backlinks.len()
        invariant
            i <= backlinks.len(),
            r@.len() == i,
            forall|j: int|
                0 <= j < i ==> (#[trigger] r@[j]).date@ == backlinks@[j].date.text() && texts(
                    r@[j].sources@,
                ) == date_texts(backlinks@[j].sources@),
        decreases backlinks.len() - i,
    {
        r.push(
            LinkedJsonItem {
                date: backlinks[i].date.to_string(),
                sources: date_strings(&backlinks[i].sources),
            },
        );
        i = i + 1;
    }
    r
}

/// All that a build writes as JSON.
pub struct JsonBuild {
    /// The list of all entries.
    pub all: AllJson,
    /// The record of each entry, in the order of the entries.
    pub daily: Vec<DailyJson>,
    /// For each entry, the names of the files that hold its record.
    pub daily_files: Vec<Vec<String>>,
    /// The related dates of each entry, in the order of the entries.
    pub related: Vec<RelatedJson>,
    /// For each entry, the names of the files that hold its related dates.
    pub related_files: Vec<Vec<String>>,
    /// The list of all tags.
    pub tags: TagsJson,
    /// The dates that are named, each with the dates that name it.
    pub linked: Vec<LinkedJsonItem>,
}

/// `build` holds what is written for the entries `entries`, whose index is
/// `index`.
pub open spec fn is_build_of(build: JsonBuild, index: SiteIndex, entries: Seq<EntryRecord>) -> bool {
    let n = entries.len();
    &&& build.all.0@.len() == n
    &&& build.daily@.len() == n
    &&& build.daily_files@.len() == n
    &&& build.related@.len() == n
    &&& build.related_files@.len() == n
    &&& forall|i: int| 0 <= i < n ==> is_all_item_of(#[trigger] build.all.0@[i], entries[i])
    &&& forall|i: int| 0 <= i < n ==> is_daily_of(#[trigger] build.daily@[i], entries[i])
    &&& forall|i: int|
        0 <= i < n ==> texts((#[trigger] build.daily_files@[i])@) == daily_names(
            entries[i].key.date,
            entries[i].key.id_title,
        )
    &&& forall|i: int|
        0 <= i < n ==> is_related_json_of(#[trigger] build.related@[i], index.related@[i])
    &&& forall|i: int|
        0 <= i < n ==> texts((#[trigger] build.related_files@[i])@) == related_names(
            entries[i].key.date,
        )
    &&& are_tag_items_of(build.tags.0@, index.tags@)
    &&& are_linked_items_of(build.linked@, index.backlinks@)
}

/// All that a build writes as JSON for the entries `entries`, which come in
/// the order of their dates. Where a body names a day that the calendar
/// does not have, nothing is to be written, and the result says where the
/// first such token stands.
pub fn run(entries: &Vec<EntryRecord>) -> (r: Result<JsonBuild, BuildError>)
    requires
        entries_ascend(entries@),
        entries.len() < u32::MAX,
    ensures
        match r {
            Ok(build) => exists|index: SiteIndex| #[trigger]
                is_index_of(index, entries@) && is_build_of(build, index, entries@),
            Err(e) => is_first_malformed(entries@, e.entry as int, e.at as int),
        },
{
    let index = match build_index(entries) {
        Ok(index) => index,
        Err(e) => {
            return Err(e);
        },
    };
    let n = entries.len();
    let mut all: Vec<AllJsonItem> = Vec::new();
    let mut daily: Vec<DailyJson> = Vec::new();
    let mut daily_files: Vec<Vec<String>> = Vec::new();
    let mut related: Vec<RelatedJson> = Vec::new();
    let mut related_files: Vec<Vec<String>> = Vec::new();
    let mut i: usize = 0;
    while i < n
        invariant
            i <= n,
            n == entries.len(),
            index.related@.len() == n,
            all@.len() == i,
            daily@.len() == i,
            daily_files@.len() == i,
            related@.len() == i,
            related_files@.len() == i,
            forall|j: int| 0 <= j < i ==> is_all_item_of(#[trigger] all@[j], entries@[j]),
            forall|j: int| 0 <= j < i ==> is_daily_of(#[trigger] daily@[j], entries@[j]),
            forall|j: int|
                0 <= j < i ==> texts((#[trigger] daily_files@[j])@) == daily_names(
                    entries@[j].key.date,
                    entries@[j].key.id_title,
                ),
            forall|j: int|
                0 <= j < i ==> is_related_json_of(#[trigger] related@[j], index.related@[j]),
            forall|j: int|
                0 <= j < i ==> texts((#[trigger] related_files@[j])@) == related_names(
                    entries@[j].key.date,
                ),
        decreases n - i,
    {
        let entry = &entries[i];
        all.push(all_json_item(entry));
        daily.push(daily_json(entry));
        daily_files.push(daily_json_file_names(&entry.key.date, &entry.key.id_title));
        related.push(related_json(&index.related[i]));
        related_files.push(related_json_file_names(&entry.key.date));
        i = i + 1;
    }
    let linked = linked_json(&index.backlinks);
    let ghost kept = index;
    let SiteIndex { related: _, backlinks: _, tags: counts } = index;
    let tags = tags_json(counts);
    let build = JsonBuild { all: AllJson(all), daily, daily_files, related, related_files, tags, linked };
    assert(is_build_of(build, kept, entries@));
    Ok(build)
}

} // verus!
