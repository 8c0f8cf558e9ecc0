//! The list and multipart API used by both GCS and S3

use crate::assoc::distinct_keys;
use crate::assoc::lemma_distinct_push;
use crate::assoc::lemma_seq_map_len;
use crate::assoc::seq_map;
use crate::error::Error;
use crate::meta::ListResult;
use crate::meta::ObjectMeta;
use crate::multipart::PartId;
use crate::path::parses;
use crate::path::trimmed;
use crate::path::Path;
use crate::meta::Timestamp;
use std::collections::hash_map::IntoIter;
use std::collections::HashMap;
use vstd::prelude::*;
use vstd::std_specs::cmp::PartialEqSpecImpl;
use vstd::std_specs::iter::IteratorSpec;

verus! {

/// A provider's answer to a listing request.
#[derive(Debug)]
pub struct ListResponse {
    /// The objects found; empty where the payload names none
    pub contents: Vec<ListContents>,
    /// The common prefixes found; empty where the payload names none
    pub common_prefixes: Vec<ListPrefix>,
    /// The cursor with which the listing goes on, if it is not complete
    pub next_continuation_token: Option<String>,
}

/// One common prefix of a listing.
#[derive(Debug)]
pub struct ListPrefix {
    pub prefix: String,
}

/// One object of a listing.
#[derive(Debug)]
pub struct ListContents {
    pub key: String,
    pub size: usize,
    pub last_modified: Timestamp,
    pub e_tag: Option<String>,
}

/// `meta` is the record that `entry` converts to.
pub open spec fn describes(meta: ObjectMeta, entry: ListContents) -> bool {
    &&& meta.location@ == trimmed(entry.key@)
    &&& meta.last_modified == entry.last_modified
    &&& meta.size == entry.size
    &&& meta.e_tag == entry.e_tag
    &&& meta.version is None
}

impl ObjectMeta {
    /// Converts one listed object. Fails if and only if its key is no
    /// path, and then reports the key.
    pub fn try_from(value: ListContents) -> (converted: Result<ObjectMeta, Error>)
        ensures
            match converted {
                Ok(meta) => parses(value.key@) && describes(meta, value),
                Err(e) => !parses(value.key@) && e.is_invalid_path(value.key@),
            },
    {
        match Path::parse(value.key.as_str()) {
            Ok(location) => Ok(
                ObjectMeta {
                    location,
                    last_modified: value.last_modified,
                    size: value.size,
                    e_tag: value.e_tag,
                    version: None,
                },
            ),
            Err(e) => Err(e),
        }
    }
}

/// The prefix at `at` is the first that is no path.
pub open spec fn first_bad_prefix(prefixes: Seq<ListPrefix>, at: int) -> bool {
    &&& 0 <= at < prefixes.len()
    &&& !parses(prefixes[at].prefix@)
    &&& forall|j: int| 0 <= j < at ==> parses((#[trigger] prefixes[j]).prefix@)
}

/// The entry at `at` is the first whose key is no path.
pub open spec fn first_bad_key(contents: Seq<ListContents>, at: int) -> bool {
    &&& 0 <= at < contents.len()
    &&& !parses(contents[at].key@)
    &&& forall|j: int| 0 <= j < at ==> parses((#[trigger] contents[j]).key@)
}

/// Every prefix and every key of the payload is a path.
pub open spec fn convertible(value: ListResponse) -> bool {
    &&& forall|i: int|
        0 <= i < value.common_prefixes@.len() ==> parses(
            (#[trigger] value.common_prefixes@[i]).prefix@,
        )
    &&& forall|i: int| 0 <= i < value.contents@.len() ==> parses((#[trigger] value.contents@[i]).key@)
}

/// `list` holds the payload's prefixes and objects, one for one and in
/// the payload's order.
pub open spec fn converts(list: ListResult, value: ListResponse) -> bool {
    &&& list.common_prefixes@.len() == value.common_prefixes@.len()
    &&& forall|i: int|
        0 <= i < value.common_prefixes@.len() ==> (#[trigger] list.common_prefixes@[i])@ == trimmed(
            value.common_prefixes@[i].prefix@,
        )
    &&& list.objects@.len() == value.contents@.len()
    &&& forall|i: int|
        0 <= i < value.contents@.len() ==> describes(
            #[trigger] list.objects@[i],
            value.contents@[i],
        )
}

/// The error that the payload's conversion ends in: the first prefix
/// that is no path or, where all prefixes are paths, the first such key.
pub open spec fn reports_first_failure(e: Error, value: ListResponse) -> bool {
    ||| exists|at: int|
        first_bad_prefix(value.common_prefixes@, at) && e.is_invalid_path(
            value.common_prefixes@[at].prefix@,
        )
    ||| {
        &&& forall|i: int|
            0 <= i < value.common_prefixes@.len() ==> parses(
                (#[trigger] value.common_prefixes@[i]).prefix@,
            )
        &&& exists|at: int|
            first_bad_key(value.contents@, at) && e.is_invalid_path(value.contents@[at].key@)
    }
}

impl ListResult {
    /// Converts a listing payload: the prefixes first, then the objects,
    /// each in order. The first string that is no path ends the
    /// conversion with its error, and nothing of the payload is returned.
    pub fn try_from(value: ListResponse) -> (converted: Result<ListResult, Error>)
        ensures
            match converted {
                Ok(list) => convertible(value) && converts(list, value),
                Err(e) => !convertible(value) && reports_first_failure(e, value),
            },
    {
        let ghost prefixes = value.common_prefixes@;
        let ghost contents = value.contents@;
        let mut common_prefixes: Vec<Path> = Vec::with_capacity(value.common_prefixes.len());
        let mut failure: Option<Error> = None;
        for entry in it: value.common_prefixes.into_iter()
            invariant
                it.seq() == prefixes,
                match failure {
                    Some(e) => exists|at: int|
                        first_bad_prefix(prefixes, at) && e.is_invalid_path(prefixes[at].prefix@),
                    None => {
                        &&& common_prefixes@.len() == it.index()
                        &&& forall|j: int|
                            0 <= j < it.index() ==> parses((#[trigger] prefixes[j]).prefix@)
                        &&& forall|j: int|
                            0 <= j < it.index() ==> (#[trigger] common_prefixes@[j])@ == trimmed(
                                prefixes[j].prefix@,
                            )
                    },
                },
        {
            if failure.is_none() {
                match Path::parse(entry.prefix.as_str()) {
                    Ok(path) => {
                        common_prefixes.push(path);
                    },
                    Err(e) => {
                        assert(first_bad_prefix(prefixes, it.index() as int));
                        failure = Some(e);
                    },
                }
            }
        }
        if let Some(e) = failure {
            return Err(e);
        }
        let mut objects: Vec<ObjectMeta> = Vec::with_capacity(value.contents.len());
        for entry in it: value.contents.into_iter()
            invariant
                it.seq() == contents,
                match failure {
                    Some(e) => exists|at: int|
                        first_bad_key(contents, at) && e.is_invalid_path(contents[at].key@),
                    None => {
                        &&& objects@.len() == it.index()
                        &&& forall|j: int| 0 <= j < it.index() ==> parses((#[trigger] contents[j]).key@)
                        &&& forall|j: int|
                            0 <= j < it.index() ==> describes(#[trigger] objects@[j], contents[j])
                    },
                },
        {
            if failure.is_none() {
                match ObjectMeta::try_from(entry) {
                    Ok(meta) => {
                        objects.push(meta);
                    },
                    Err(e) => {
                        assert(first_bad_key(contents, it.index() as int));
                        failure = Some(e);
                    },
                }
            }
        }
        match failure {
            Some(e) => Err(e),
            None => Ok(ListResult { common_prefixes, objects }),
        }
    }
}

/// The provider's answer when a multipart upload is begun.
#[derive(Debug)]
pub struct InitiateMultipartUploadResult {
    pub upload_id: String,
}

/// The request that completes a multipart upload: its parts, in the order
/// in which they are put together.
#[derive(Debug)]
pub struct CompleteMultipartUpload {
    pub part: Vec<MultipartPart>,
}

/// One part of a completion request.
#[derive(Debug)]
pub struct MultipartPart {
    /// The token with which the provider acknowledged the part
    pub e_tag: String,
    /// The part's place in the object, counted from one
    pub part_number: usize,
}

impl CompleteMultipartUpload {
    /// Lists the parts in the order given, numbered from one by their
    /// place, each with its identifier's token as it is.
    pub fn from(value: Vec<PartId>) -> (request: CompleteMultipartUpload)
        ensures
            request.part@.len() == value@.len(),
            forall|i: int|
                0 <= i < value@.len() ==> (#[trigger] request.part@[i]).e_tag == value@[i].content_id
                    && request.part@[i].part_number == i + 1,
    {
        let ghost ids = value@;
        let mut part: Vec<MultipartPart> = Vec::with_capacity(value.len());
        for id in it: value.into_iter()
            invariant
                it.seq() == ids,
                ids.len() <= usize::MAX,
                part@.len() == it.index(),
                forall|i: int|
                    0 <= i < it.index() ==> (#[trigger] part@[i]).e_tag == ids[i].content_id
                        && part@[i].part_number == i + 1,
        {
            let part_number: usize = part.len() + 1;
            part.push(MultipartPart { e_tag: id.content_id, part_number });
        }
        CompleteMultipartUpload { part }
    }
}

/// The provider's answer when a multipart upload is completed.
#[derive(Debug)]
pub struct CompleteMultipartUploadResult {
    pub e_tag: String,
}

/// One tag: a key and its value.
#[derive(Debug)]
pub struct Tag {
    pub key: String,
    pub value: String,
}

impl View for Tag {
    type V = (Seq<char>, Seq<char>);

    open spec fn view(&self) -> (Seq<char>, Seq<char>) {
        (self.key@, self.value@)
    }
}

impl PartialEq for Tag {
    fn eq(&self, other: &Tag) -> (same: bool) {
        self.key == other.key && self.value == other.value
    }
}

impl PartialEqSpecImpl for Tag {
    open spec fn obeys_eq_spec() -> bool {
        true
    }

    open spec fn eq_spec(&self, other: &Tag) -> bool {
        self@ == other@
    }
}

impl Eq for Tag {

}

/// The tags of a sequence, each by its texts.
pub open spec fn tag_views(tags: Seq<Tag>) -> Seq<(Seq<char>, Seq<char>)> {
    tags.map_values(|tag: Tag| tag@)
}

/// The tags of a document, in the document's order.
#[derive(Debug)]
pub struct TagList {
    pub tags: Vec<Tag>,
}

impl View for TagList {
    type V = Seq<(Seq<char>, Seq<char>)>;

    open spec fn view(&self) -> Seq<(Seq<char>, Seq<char>)> {
        tag_views(self.tags@)
    }
}

/// A tag document.
#[derive(Debug)]
pub struct Tagging {
    pub list: TagList,
}

impl View for Tagging {
    type V = Seq<(Seq<char>, Seq<char>)>;

    open spec fn view(&self) -> Seq<(Seq<char>, Seq<char>)> {
        self.list@
    }
}

/// The provider whose tag document is written; they differ in the name
/// of the root element.
#[derive(Debug, Clone, Copy, PartialEq, Eq, Structural)]
pub enum Dialect {
    S3,
    Azure,
}

/// What stands for a character in XML text.
pub open spec fn escaped_char(c: char) -> Seq<char> {
    if c == '<' {
        "&lt;"@
    } else if c == '>' {
        "&gt;"@
    } else if c == '&' {
        "&amp;"@
    } else if c == '\'' {
        "&apos;"@
    } else if c == '"' {
        "&quot;"@
    } else {
        seq![c]
    }
}

/// `text` with each of the five special characters replaced by its entity.
pub open spec fn xml_escaped(text: Seq<char>) -> Seq<char>
    decreases text.len(),
{
    if text.len() == 0 {
        Seq::empty()
    } else {
        xml_escaped(text.drop_last()) + escaped_char(text.last())
    }
}

/// An element that holds text only; without text it closes itself.
pub open spec fn text_element(name: Seq<char>, text: Seq<char>) -> Seq<char> {
    if text.len() == 0 {
        "<"@ + name + "/>"@
    } else {
        "<"@ + name + ">"@ + xml_escaped(text) + "</"@ + name + ">"@
    }
}

/// The element of one tag.
pub open spec fn tag_element(tag: (Seq<char>, Seq<char>)) -> Seq<char> {
    "<Tag>"@ + text_element("Key"@, tag.0) + text_element("Value"@, tag.1) + "</Tag>"@
}

/// The elements of the tags, one after the other.
pub open spec fn tag_elements(tags: Seq<(Seq<char>, Seq<char>)>) -> Seq<char>
    decreases tags.len(),
{
    if tags.len() == 0 {
        Seq::empty()
    } else {
        tag_elements(tags.drop_last()) + tag_element(tags.last())
    }
}

/// The element of the tag set; without tags it closes itself.
pub open spec fn tag_set_element(tags: Seq<(Seq<char>, Seq<char>)>) -> Seq<char> {
    if tags.len() == 0 {
        "<TagSet/>"@
    } else {
        "<TagSet>"@ + tag_elements(tags) + "</TagSet>"@
    }
}

/// The name of the root element.
pub open spec fn root_name(dialect: Dialect) -> Seq<char> {
    match dialect {
        Dialect::S3 => "Tagging"@,
        Dialect::Azure => "Tags"@,
    }
}

/// The whole document: the XML declaration and, directly after it, the
/// root element with the tag set.
pub open spec fn document(dialect: Dialect, tags: Seq<(Seq<char>, Seq<char>)>) -> Seq<char> {
    "<?xml version=\"1.0\" encoding=\"utf-8\"?>"@ + "<"@ + root_name(dialect) + ">"@
        + tag_set_element(tags) + "</"@ + root_name(dialect) + ">"@
}

/// `quick_xml::escape::escape`: the text with `<`, `>`, `&`, `'` and `"`
/// each replaced by its entity, and every other character kept.
#[verifier::external_body]
fn escape_text(raw: &str) -> (text: String)
    ensures
        text@ == xml_escaped(raw@),
{
    quick_xml::escape::escape(raw).into_owned()
}

/// The owning iterator of std over the entries of a map of strings
/// (`std::collections::hash_map::IntoIter`), held as it is.
#[verifier::external_body]
pub struct MapEntries {
    inner: IntoIter<String, String>,
}

/// The entries that an owning iterator has not handed out yet.
pub uninterp spec fn entries_left(entries: MapEntries) -> Map<Seq<char>, Seq<char>>;

/// `HashMap::into_iter`: an iterator that still has every entry of the
/// map to hand out, finitely many.
#[verifier::external_body]
fn map_into_iter(map: HashMap<String, String>) -> (entries: MapEntries)
    ensures
        entries_left(entries) == map.deep_view(),
        entries_left(entries).dom().finite(),
{
    MapEntries { inner: map.into_iter() }
}

/// `Iterator::next` of the owning iterator: hands out one of the entries
/// that are left, whichever it is, and keeps the others; it ends only when
/// none is left.
#[verifier::external_body]
fn next_entry(entries: &mut MapEntries) -> (entry: Option<(String, String)>)
    ensures
        match entry {
            Some(pair) => {
                &&& entries_left(*old(entries)).contains_key(pair.0@)
                &&& entries_left(*old(entries))[pair.0@] == pair.1@
                &&& entries_left(*final(entries)) == entries_left(*old(entries)).remove(pair.0@)
            },
            None => {
                &&& entries_left(*old(entries)) == Map::<Seq<char>, Seq<char>>::empty()
                &&& entries_left(*final(entries)) == entries_left(*old(entries))
            },
        },
{
    entries.inner.next()
}

/// `HashMap::insert`: afterwards the key is mapped to the value, and every
/// other key as before.
#[verifier::external_body]
fn map_insert(map: &mut HashMap<String, String>, key: String, value: String)
    ensures
        final(map).deep_view() == old(map).deep_view().insert(key@, value@),
{
    map.insert(key, value);
}

/// A mapping turned into tags and the tags turned back into a mapping
/// give the mapping again, with as many pairs as there are tags: where
/// `tags` lists `mapping` without repeating a key, the mapping read from
/// `tags` is `mapping`.
pub proof fn lemma_tags_round_trip(
    mapping: Map<Seq<char>, Seq<char>>,
    tags: Seq<(Seq<char>, Seq<char>)>,
    back: Map<Seq<char>, Seq<char>>,
)
    requires
        distinct_keys(tags),
        seq_map(tags) == mapping,
        back == seq_map(tags),
    ensures
        back == mapping,
        back.dom().finite(),
        back.dom().len() == tags.len(),
{
    lemma_seq_map_len(tags);
}

/// Writes the element `name` with the text `text` at the end of `out`.
fn push_text_element(out: &mut String, name: &str, text: &str)
    ensures
        final(out)@ == old(out)@ + text_element(name@, text@),
{
    let ghost before = out@;
    if text.is_empty() {
        out.append("<");
        out.append(name);
        out.append("/>");
        assert(out@ =~= before + text_element(name@, text@));
    } else {
        let escaped = escape_text(text);
        out.append("<");
        out.append(name);
        out.append(">");
        out.append(escaped.as_str());
        out.append("</");
        out.append(name);
        out.append(">");
        assert(out@ =~= before + text_element(name@, text@));
    }
}

impl Tagging {
    /// The tags of a mapping: each of its pairs once, in no determined
    /// order.
    pub fn from(value: HashMap<String, String>) -> (tagging: Tagging)
        ensures
            distinct_keys(tagging@),
            seq_map(tagging@) == value.deep_view(),
            tagging@.len() == value.deep_view().dom().len(),
    {
        let ghost all = value.deep_view();
        let mut entries = map_into_iter(value);
        let mut tags: Vec<Tag> = Vec::new();
        loop
            invariant
                entries_left(entries).dom().finite(),
                distinct_keys(tag_views(tags@)),
                forall|k: Seq<char>|
                    entries_left(entries).contains_key(k) ==> !seq_map(tag_views(tags@)).contains_key(
                        k,
                    ),
                all == seq_map(tag_views(tags@)).union_prefer_right(entries_left(entries)),
            ensures
                distinct_keys(tag_views(tags@)),
                all == seq_map(tag_views(tags@)),
            decreases entries_left(entries).dom().len(),
        {
            let ghost left = entries_left(entries);
            let ghost done = tag_views(tags@);
            match next_entry(&mut entries) {
                Some(pair) => {
                    proof {
                        lemma_distinct_push(done, (pair.0@, pair.1@));
                        assert(tag_views(tags@.push(Tag { key: pair.0, value: pair.1 })) =~= done.push(
                            (pair.0@, pair.1@),
                        ));
                        assert(seq_map(done).insert(pair.0@, pair.1@).union_prefer_right(
                            left.remove(pair.0@),
                        ) =~= seq_map(done).union_prefer_right(left));
                    }
                    tags.push(Tag { key: pair.0, value: pair.1 });
                },
                None => {
                    proof {
                        assert(seq_map(done).union_prefer_right(left) =~= seq_map(done));
                    }
                    break ;
                },
            }
        }
        proof {
            lemma_seq_map_len(tag_views(tags@));
        }
        Tagging { list: TagList { tags } }
    }

    /// The mapping of a tag document: its tags inserted in the document's
    /// order, so that of two tags with one key the later one stays.
    pub fn into_map(self) -> (map: HashMap<String, String>)
        ensures
            map.deep_view() == seq_map(self@),
    {
        let ghost all = self.list.tags@;
        let ghost views = self@;
        let mut map: HashMap<String, String> = HashMap::new();
        proof {
            vstd::std_specs::hash::lemma_hashmap_deepview_dom(map);
            assert(map.deep_view() =~= Map::<Seq<char>, Seq<char>>::empty());
        }
        for tag in it: self.list.tags.into_iter()
            invariant
                it.seq() == all,
                views == tag_views(all),
                map.deep_view() == seq_map(views.take(it.index())),
        {
            proof {
                let ghost upto = views.take(it.index() + 1);
                assert(upto.drop_last() == views.take(it.index()));
                assert(upto.last() == tag@);
            }
            map_insert(&mut map, tag.key, tag.value);
        }
        proof {
            assert(views.take(views.len() as int) == views);
        }
        map
    }

    /// The document in the given dialect.
    pub fn render(&self, dialect: Dialect) -> (text: String)
        ensures
            text@ == document(dialect, self@),
    {
        let root = match dialect {
            Dialect::S3 => "Tagging",
            Dialect::Azure => "Tags",
        };
        let mut elements = String::new();
        let n = self.list.tags.len();
        let mut i: usize = 0;
        while i < n
            invariant
                n == self.list.tags@.len(),
                i <= n,
                elements@ == tag_elements(self@.take(i as int)),
            decreases n - i,
        {
            let tag = &self.list.tags[i];
            let ghost before = elements@;
            elements.append("<Tag>");
            push_text_element(&mut elements, "Key", tag.key.as_str());
            push_text_element(&mut elements, "Value", tag.value.as_str());
            elements.append("</Tag>");
            proof {
                let ghost upto = self@.take(i + 1);
                assert(upto.drop_last() == self@.take(i as int));
                assert(upto.last() == tag@);
                assert(elements@ =~= before + tag_element(tag@));
            }
            i += 1;
        }
        proof {
            assert(self@.take(n as int) == self@);
        }
        let mut text = String::from_str("<?xml version=\"1.0\" encoding=\"utf-8\"?>");
        text.append("<");
        text.append(root);
        text.append(">");
        if n == 0 {
            text.append("<TagSet/>");
        } else {
            text.append("<TagSet>");
            text.append(elements.as_str());
            text.append("</TagSet>");
        }
        text.append("</");
        text.append(root);
        text.append(">");
        assert(text@ =~= document(dialect, self@));
        text
    }

    /// The document for S3-compatible providers, under the root `Tagging`.
    pub fn to_xml_document(&self) -> (rendered: Result<String, Error>)
        ensures
            match rendered {
                Ok(text) => text@ == document(Dialect::S3, self@),
                Err(_) => false,
            },
    {
        Ok(self.render(Dialect::S3))
    }

    /// The document for Azure, under the root `Tags`.
    pub fn to_xml_document_for_azure(&self) -> (rendered: Result<String, Error>)
        ensures
            match rendered {
                Ok(text) => text@ == document(Dialect::Azure, self@),
                Err(_) => false,
            },
    {
        Ok(self.render(Dialect::Azure))
    }
}

} // verus!
