//! The JSON text in which a cached message keeps its labels and its
//! headers: labels as an array of strings, headers as an array of objects
//! with the members `name` and `value`.

use crate::json::{
    array_value, items, json_document, json_items, json_member, json_of_items, json_of_members,
    json_of_text, json_rendering, json_text, member, member_views, object_value, parse_document,
    render, text, text_value,
};
use crate::text::texts;
use crate::types::{header_pairs, GmailHeader};
use serde_json::Value;
use vstd::prelude::*;

verus! {

/// Every element of `items` is a string.
pub open spec fn all_text(items: Seq<Value>) -> bool {
    forall|i: int| 0 <= i < items.len() ==> json_text(#[trigger] items[i]).is_some()
}

/// The texts of the elements of `items`.
pub open spec fn item_texts(items: Seq<Value>) -> Seq<Seq<char>> {
    items.map_values(|x: Value| json_text(x).unwrap())
}

/// The strings of a document that is an array of strings; the empty list
/// for any other document and for no document.
pub open spec fn string_list(doc: Option<Value>) -> Seq<Seq<char>> {
    match doc {
        Some(v) => match json_items(v) {
            Some(items) => if all_text(items) {
                item_texts(items)
            } else {
                Seq::empty()
            },
            None => Seq::empty(),
        },
        None => Seq::empty(),
    }
}

/// The labels that the JSON text `text` holds.
pub open spec fn stored_labels(text: Seq<char>) -> Seq<Seq<char>> {
    string_list(json_document(text))
}

/// The strings of `doc`, where it is an array of strings; else none.
pub fn string_list_of(doc: Option<&Value>) -> (r: Vec<String>)
    ensures
        texts(r@) == string_list(
            match doc {
                Some(v) => Some(*v),
                None => None,
            },
        ),
{
    let mut out: Vec<String> = Vec::new();
    let v = match doc {
        Some(v) => v,
        None => {
            proof {
                assert(texts(out@) =~= Seq::<Seq<char>>::empty());
            }
            return out;
        },
    };
    let elements = match items(v) {
        Some(e) => e,
        None => {
            proof {
                assert(texts(out@) =~= Seq::<Seq<char>>::empty());
            }
            return out;
        },
    };
    let mut i: usize = 0;
    while i < elements.len()
        invariant
            i <= elements.len(),
            doc == Some(v),
            json_items(*v) == Some(elements@),
            forall|k: int| 0 <= k < i ==> json_text(#[trigger] elements@[k]).is_some(),
            texts(out@) == item_texts(elements@.take(i as int)),
        decreases elements.len() - i,
    {
        match text(&elements[i]) {
            Some(t) => {
                let ghost before = out@;
                out.push(t.to_owned());
                proof {
                    assert(texts(out@) =~= texts(before).push(t@));
                    assert(elements@.take(i + 1) =~= elements@.take(i as int).push(
                        elements@[i as int],
                    ));
                    assert(item_texts(elements@.take(i + 1)) =~= item_texts(
                        elements@.take(i as int),
                    ).push(t@));
                }
            },
            None => {
                let none: Vec<String> = Vec::new();
                proof {
                    assert(json_text(elements@[i as int]).is_none());
                    assert(!all_text(elements@));
                    assert(texts(none@) =~= Seq::<Seq<char>>::empty());
                }
                return none;
            },
        }
        i += 1;
    }
    proof {
        assert(elements@.take(i as int) == elements@);
    }
    out
}

/// Reads the labels of a cached message from their JSON text. Text that is
/// not a JSON array of strings holds no labels.
pub fn decode_labels(text: &str) -> (r: Vec<String>)
    ensures
        texts(r@) == stored_labels(text@),
{
    let doc = parse_document(text);
    string_list_of(doc.as_ref())
}

/// The array of strings that holds `labels`.
pub open spec fn label_document(labels: Seq<Seq<char>>) -> Value {
    json_of_items(labels.map_values(|l: Seq<char>| json_of_text(l)))
}

/// The compact text of `v`, or the empty text where it has none.
pub open spec fn rendering_or_empty(v: Value) -> Seq<char> {
    match json_rendering(v) {
        Some(t) => t,
        None => Seq::empty(),
    }
}

pub(crate) fn render_or_empty(v: &Value) -> (r: String)
    ensures
        r@ == rendering_or_empty(*v),
{
    match render(v) {
        Some(s) => s,
        None => String::new(),
    }
}

/// Writes labels as the JSON text that a cached message keeps.
pub fn encode_labels(labels: &Vec<String>) -> (r: String)
    ensures
        r@ == rendering_or_empty(label_document(texts(labels@))),
{
    let mut values: Vec<Value> = Vec::new();
    let mut i: usize = 0;
    while i < labels.len()
        invariant
            i <= labels.len(),
            values@ == texts(labels@).take(i as int).map_values(|l: Seq<char>| json_of_text(l)),
        decreases labels.len() - i,
    {
        let ghost before = values@;
        values.push(text_value(labels[i].clone()));
        proof {
            let f = |l: Seq<char>| json_of_text(l);
            assert(texts(labels@).take(i + 1) =~= texts(labels@).take(i as int).push(
                labels@[i as int]@,
            ));
            assert(values@ =~= texts(labels@).take(i + 1).map_values(f));
        }
        i += 1;
    }
    proof {
        assert(texts(labels@).take(i as int) == texts(labels@));
    }
    let doc = array_value(values);
    render_or_empty(&doc)
}

/// The name and value that the object `item` holds as a header: its
/// members `name` and `value`, both strings.
pub open spec fn header_of(item: Value) -> Option<(Seq<char>, Seq<char>)> {
    match (json_member(item, "name"@), json_member(item, "value"@)) {
        (Some(n), Some(v)) => match (json_text(n), json_text(v)) {
            (Some(a), Some(b)) => Some((a, b)),
            _ => None,
        },
        _ => None,
    }
}

/// The headers of a document that is an array of header objects; none for
/// any other document and for no document.
pub open spec fn header_list(doc: Option<Value>) -> Seq<(Seq<char>, Seq<char>)> {
    match doc {
        Some(v) => match json_items(v) {
            Some(items) => if forall|i: int|
                0 <= i < items.len() ==> header_of(#[trigger] items[i]).is_some() {
                items.map_values(|x: Value| header_of(x).unwrap())
            } else {
                Seq::empty()
            },
            None => Seq::empty(),
        },
        None => Seq::empty(),
    }
}

/// The headers that the JSON text `text` holds.
pub open spec fn stored_headers(text: Seq<char>) -> Seq<(Seq<char>, Seq<char>)> {
    header_list(json_document(text))
}

fn header_from(item: &Value) -> (r: Option<GmailHeader>)
    ensures
        match r {
            Some(h) => header_of(*item) == Some(h@),
            None => header_of(*item).is_none(),
        },
{
    let n = match member(item, "name") {
        Some(n) => n,
        None => {
            return None;
        },
    };
    let v = match member(item, "value") {
        Some(v) => v,
        None => {
            return None;
        },
    };
    match text(n) {
        Some(a) => match text(v) {
            Some(b) => Some(GmailHeader { name: a.to_owned(), value: b.to_owned() }),
            None => None,
        },
        None => None,
    }
}

/// The headers of `doc`, where it is an array of header objects; else
/// none.
pub fn header_list_of(doc: Option<&Value>) -> (r: Vec<GmailHeader>)
    ensures
        header_pairs(r@) == header_list(
            match doc {
                Some(v) => Some(*v),
                None => None,
            },
        ),
{
    let mut out: Vec<GmailHeader> = Vec::new();
    let v = match doc {
        Some(v) => v,
        None => {
            proof {
                assert(header_pairs(out@) =~= Seq::<(Seq<char>, Seq<char>)>::empty());
            }
            return out;
        },
    };
    let elements = match items(v) {
        Some(e) => e,
        None => {
            proof {
                assert(header_pairs(out@) =~= Seq::<(Seq<char>, Seq<char>)>::empty());
            }
            return out;
        },
    };
    let mut i: usize = 0;
    while i < elements.len()
        invariant
            i <= elements.len(),
            doc == Some(v),
            json_items(*v) == Some(elements@),
            forall|k: int| 0 <= k < i ==> header_of(#[trigger] elements@[k]).is_some(),
            header_pairs(out@) == elements@.take(i as int).map_values(
                |x: Value| header_of(x).unwrap(),
            ),
        decreases elements.len() - i,
    {
        match header_from(&elements[i]) {
            Some(h) => {
                let ghost before = out@;
                let ghost pair = h@;
                out.push(h);
                proof {
                    let f = |x: Value| header_of(x).unwrap();
                    assert(header_pairs(out@) =~= header_pairs(before).push(pair));
                    assert(elements@.take(i + 1) =~= elements@.take(i as int).push(
                        elements@[i as int],
                    ));
                    assert(elements@.take(i + 1).map_values(f) =~= elements@.take(
                        i as int,
                    ).map_values(f).push(pair));
                }
            },
            None => {
                let none: Vec<GmailHeader> = Vec::new();
                proof {
                    assert(header_of(elements@[i as int]).is_none());
                    assert(header_pairs(none@) =~= Seq::<(Seq<char>, Seq<char>)>::empty());
                }
                return none;
            },
        }
        i += 1;
    }
    proof {
        assert(elements@.take(i as int) == elements@);
    }
    out
}

/// Reads the headers of a cached message from their JSON text. Text that
/// is not a JSON array of header objects holds no headers.
pub fn decode_headers(text: &str) -> (r: Vec<GmailHeader>)
    ensures
        header_pairs(r@) == stored_headers(text@),
{
    let doc = parse_document(text);
    header_list_of(doc.as_ref())
}

/// The object that holds one header.
pub open spec fn header_object(h: (Seq<char>, Seq<char>)) -> Value {
    json_of_members(seq![("name"@, json_of_text(h.0)), ("value"@, json_of_text(h.1))])
}

/// The array of header objects that holds `headers`.
pub open spec fn header_document(headers: Seq<(Seq<char>, Seq<char>)>) -> Value {
    json_of_items(headers.map_values(|h: (Seq<char>, Seq<char>)| header_object(h)))
}

/// Writes headers as the JSON text that a cached message keeps.
pub fn encode_headers(headers: &Vec<GmailHeader>) -> (r: String)
    ensures
        r@ == rendering_or_empty(header_document(header_pairs(headers@))),
{
    let mut values: Vec<Value> = Vec::new();
    let mut i: usize = 0;
    while i < headers.len()
        invariant
            i <= headers.len(),
            values@ == header_pairs(headers@).take(i as int).map_values(
                |h: (Seq<char>, Seq<char>)| header_object(h),
            ),
        decreases headers.len() - i,
    {
        let h = &headers[i];
        let mut members: Vec<(String, Value)> = Vec::new();
        members.push(("name".to_owned(), text_value(h.name.clone())));
        members.push(("value".to_owned(), text_value(h.value.clone())));
        proof {
            assert(member_views(members@) =~= seq![
                ("name"@, json_of_text(h.name@)),
                ("value"@, json_of_text(h.value@)),
            ]);
        }
        values.push(object_value(members));
        proof {
            let f = |h: (Seq<char>, Seq<char>)| header_object(h);
            assert(header_pairs(headers@).take(i + 1) =~= header_pairs(headers@).take(
                i as int,
            ).push(headers@[i as int]@));
            assert(values@ =~= header_pairs(headers@).take(i + 1).map_values(f));
        }
        i += 1;
    }
    proof {
        assert(header_pairs(headers@).take(i as int) == header_pairs(headers@));
    }
    let doc = array_value(values);
    render_or_empty(&doc)
}

} // verus!
