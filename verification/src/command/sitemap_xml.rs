//! The addresses that the sitemap lists.

use vstd::prelude::*;
use crate::command::build_html::SITE_URL;
use crate::command::build_json::append_date_path;
use crate::command::build_json::date_path;
use crate::data::date::Date;
use crate::text::push_char;
use vstd::string::StringExecFns;

verus! {

/// The address of the page of the entry of `date`.
pub open spec fn entry_url(date: Date) -> Seq<char> {
    SITE_URL@ + seq!['/'] + date_path(date) + seq!['/']
}

/// The address of the page of the entry of `date`, as
/// `https://blog.bouzuya.net/YYYY/MM/DD/`.
pub fn sitemap_loc(date: &Date) -> (r: String)
    ensures
        r@ == entry_url(*date),
{
    let mut r = String::new();
    r.append(SITE_URL);
    push_char(&mut r, '/');
    append_date_path(&mut r, date);
    push_char(&mut r, '/');
    assert(r@ == entry_url(*date));
    r
}

} // verus!
