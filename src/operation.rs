use vstd::prelude::*;

verus! {

/// The body, variables and headers of one operation of a collection.
pub struct OperationData {
    pub source_text: String,
    pub headers: Option<Vec<(String, String)>>,
    pub variables: Option<String>,
}

pub ghost struct OperationDataView {
    pub source_text: Seq<char>,
    pub headers: Option<Seq<(Seq<char>, Seq<char>)>>,
    pub variables: Option<Seq<char>>,
}

pub open spec fn header_views(h: Seq<(String, String)>) -> Seq<(Seq<char>, Seq<char>)> {
    h.map_values(|p: (String, String)| (p.0@, p.1@))
}

impl View for OperationData {
    type V = OperationDataView;

    open spec fn view(&self) -> OperationDataView {
        OperationDataView {
            source_text: self.source_text@,
            headers: match self.headers {
                Some(h) => Some(header_views(h@)),
                None => None,
            },
            variables: match self.variables {
                Some(v) => Some(v@),
                None => None,
            },
        }
    }
}

/// Copies a string, keeping its characters.
pub fn copy_string(s: &String) -> (r: String)
    ensures
        r@ == s@,
{
    s.clone()
}

impl OperationData {
    /// A deep copy that keeps every field.
    pub fn duplicate(&self) -> (r: OperationData)
        ensures
            r@ == self@,
    {
        let headers = match &self.headers {
            Some(h) => {
                let mut out: Vec<(String, String)> = Vec::new();
                let mut i: usize = 0;
                while i < h.len()
                    invariant
                        i <= h@.len(),
                        out@.len() == i,
                        forall|j: int| 0 <= j < i ==> #[trigger] out@[j].0@ == h@[j].0@ && out@[j].1@ == h@[j].1@,
                    decreases h@.len() - i,
                {
                    let name = copy_string(&h[i].0);
                    let value = copy_string(&h[i].1);
                    out.push((name, value));
                    i = i + 1;
                }
                assert(header_views(out@) =~= header_views(h@));
                Some(out)
            },
            None => None,
        };
        let variables = match &self.variables {
            Some(v) => Some(copy_string(v)),
            None => None,
        };
        OperationData { source_text: copy_string(&self.source_text), headers, variables }
    }
}

/// An entry of the lightweight poll: an id and its version stamp.
pub struct PollEntry {
    pub id: String,
    pub last_updated_at: String,
}

impl View for PollEntry {
    type V = (Seq<char>, Seq<char>);

    open spec fn view(&self) -> (Seq<char>, Seq<char>) {
        (self.id@, self.last_updated_at@)
    }
}

/// A full entry of the collection: id, version stamp and detail.
pub struct OperationEntry {
    pub id: String,
    pub last_updated_at: String,
    pub data: OperationData,
}

pub ghost struct EntryView {
    pub id: Seq<char>,
    pub stamp: Seq<char>,
    pub data: OperationDataView,
}

impl View for OperationEntry {
    type V = EntryView;

    open spec fn view(&self) -> EntryView {
        EntryView { id: self.id@, stamp: self.last_updated_at@, data: self.data@ }
    }
}

pub open spec fn poll_views(p: Seq<PollEntry>) -> Seq<(Seq<char>, Seq<char>)> {
    p.map_values(|e: PollEntry| e@)
}

pub open spec fn entry_views(p: Seq<OperationEntry>) -> Seq<EntryView> {
    p.map_values(|e: OperationEntry| e@)
}

pub open spec fn data_views(p: Seq<OperationData>) -> Seq<OperationDataView> {
    p.map_values(|d: OperationData| d@)
}

pub open spec fn string_views(p: Seq<String>) -> Seq<Seq<char>> {
    p.map_values(|s: String| s@)
}

/// Compares two version stamps: stamps are opaque, so only equality counts.
pub fn same_stamp(a: &String, b: &String) -> (r: bool)
    ensures
        r == (a@ == b@),
{
    a.eq(b)
}

} // verus!
