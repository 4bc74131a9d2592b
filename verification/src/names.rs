//! The names under which values stand in the objects that are sent and returned.
use vstd::prelude::*;

verus! {

/// The names of parameters differ, in their lengths or in single letters.
pub proof fn lemma_param_names()
    ensures
        "x"@.len() == 1 && "x"@[0] == 'x',
        "y"@.len() == 1 && "y"@[0] == 'y',
        "by"@.len() == 2 && "by"@[0] == 'b' && "by"@[1] == 'y',
        "dx"@.len() == 2 && "dx"@[0] == 'd' && "dx"@[1] == 'x',
        "dy"@.len() == 2 && "dy"@[0] == 'd' && "dy"@[1] == 'y',
        "key"@.len() == 3 && "key"@[0] == 'k',
        "url"@.len() == 3 && "url"@[0] == 'u',
        "code"@.len() == 4 && "code"@[0] == 'c',
        "desc"@.len() == 4 && "desc"@[0] == 'd',
        "full"@.len() == 4 && "full"@[0] == 'f',
        "item"@.len() == 4 && "item"@[0] == 'i',
        "link"@.len() == 4 && "link"@[0] == 'l',
        "text"@.len() == 4 && "text"@[0] == 't',
        "index"@.len() == 5 && "index"@[0] == 'i',
        "owner"@.len() == 5 && "owner"@[0] == 'o',
        "title"@.len() == 5 && "title"@[0] == 't',
        "value"@.len() == 5 && "value"@[0] == 'v',
        "fields"@.len() == 6 && "fields"@[2] == 'e',
        "smooth"@.len() == 6 && "smooth"@[2] == 'o',
        "tab_id"@.len() == 6 && "tab_id"@[2] == 'b',
        "target"@.len() == 6 && "target"@[2] == 'r',
        "checked"@.len() == 7 && "checked"@[0] == 'c',
        "new_tab"@.len() == 7 && "new_tab"@[0] == 'n',
        "timeout"@.len() == 7 && "timeout"@[0] == 't',
        "selector"@.len() == 8,
        "modifiers"@.len() == 9 && "modifiers"@[0] == 'm',
        "wait_load"@.len() == 9 && "wait_load"@[0] == 'w',
{
    reveal_strlit("x");
    reveal_strlit("y");
    reveal_strlit("by");
    reveal_strlit("dx");
    reveal_strlit("dy");
    reveal_strlit("key");
    reveal_strlit("url");
    reveal_strlit("code");
    reveal_strlit("desc");
    reveal_strlit("full");
    reveal_strlit("item");
    reveal_strlit("link");
    reveal_strlit("text");
    reveal_strlit("index");
    reveal_strlit("owner");
    reveal_strlit("title");
    reveal_strlit("value");
    reveal_strlit("fields");
    reveal_strlit("smooth");
    reveal_strlit("tab_id");
    reveal_strlit("target");
    reveal_strlit("checked");
    reveal_strlit("new_tab");
    reveal_strlit("timeout");
    reveal_strlit("selector");
    reveal_strlit("modifiers");
    reveal_strlit("wait_load");
}

/// The names of what is returned differ, in their lengths or in single letters.
pub proof fn lemma_result_names()
    ensures
        "geo"@.len() == 3 && "geo"@[1] == 'e',
        "tld"@.len() == 3 && "tld"@[1] == 'l',
        "top"@.len() == 3 && "top"@[1] == 'o',
        "url"@.len() == 3 && "url"@[1] == 'r',
        "date"@.len() == 4 && "date"@[0] == 'd',
        "note"@.len() == 4 && "note"@[0] == 'n',
        "tlds"@.len() == 4 && "tlds"@[0] == 't',
        "price"@.len() == 5 && "price"@[1] == 'r' && "price"@[3] == 'c',
        "query"@.len() == 5 && "query"@[1] == 'u' && "query"@[3] == 'r',
        "terms"@.len() == 5 && "terms"@[1] == 'e' && "terms"@[3] == 'm',
        "title"@.len() == 5 && "title"@[1] == 'i' && "title"@[3] == 'l',
        "trend"@.len() == 5 && "trend"@[1] == 'r' && "trend"@[3] == 'n',
        "video"@.len() == 5 && "video"@[1] == 'i' && "video"@[3] == 'e',
        "views"@.len() == 5 && "views"@[1] == 'i' && "views"@[3] == 'w',
        "votes"@.len() == 5 && "votes"@[1] == 'o' && "votes"@[3] == 'e',
        "badges"@.len() == 6 && "badges"@[0] == 'b' && "badges"@[2] == 'd',
        "domain"@.len() == 6 && "domain"@[0] == 'd' && "domain"@[2] == 'm',
        "rising"@.len() == 6 && "rising"@[0] == 'r' && "rising"@[2] == 's',
        "series"@.len() == 6 && "series"@[0] == 's' && "series"@[2] == 'r',
        "status"@.len() == 6 && "status"@[0] == 's' && "status"@[2] == 'a',
        "tab_id"@.len() == 6 && "tab_id"@[0] == 't' && "tab_id"@[2] == 'b',
        "target"@.len() == 6 && "target"@[0] == 't' && "target"@[2] == 'r',
        "videos"@.len() == 6 && "videos"@[0] == 'v' && "videos"@[2] == 'd',
        "channel"@.len() == 7 && "channel"@[2] == 'a',
        "regions"@.len() == 7 && "regions"@[2] == 'g',
        "results"@.len() == 7 && "results"@[2] == 's',
        "comments"@.len() == 8 && "comments"@[3] == 'm',
        "complete"@.len() == 8 && "complete"@[3] == 'p',
        "duration"@.len() == 8 && "duration"@[3] == 'a',
        "available"@.len() == 9 && "available"@[0] == 'a',
        "published"@.len() == 9 && "published"@[0] == 'p',
        "description"@.len() == 11 && "description"@[0] == 'd',
        "views_count"@.len() == 11 && "views_count"@[0] == 'v',
        "published_at"@.len() == 12,
{
    reveal_strlit("geo");
    reveal_strlit("tld");
    reveal_strlit("top");
    reveal_strlit("url");
    reveal_strlit("date");
    reveal_strlit("note");
    reveal_strlit("tlds");
    reveal_strlit("price");
    reveal_strlit("query");
    reveal_strlit("terms");
    reveal_strlit("title");
    reveal_strlit("trend");
    reveal_strlit("video");
    reveal_strlit("views");
    reveal_strlit("votes");
    reveal_strlit("badges");
    reveal_strlit("domain");
    reveal_strlit("rising");
    reveal_strlit("series");
    reveal_strlit("status");
    reveal_strlit("tab_id");
    reveal_strlit("target");
    reveal_strlit("videos");
    reveal_strlit("channel");
    reveal_strlit("regions");
    reveal_strlit("results");
    reveal_strlit("comments");
    reveal_strlit("complete");
    reveal_strlit("duration");
    reveal_strlit("available");
    reveal_strlit("published");
    reveal_strlit("description");
    reveal_strlit("views_count");
    reveal_strlit("published_at");
}

} // verus!
