use crate::bytes::{lowered, same, to_lower};
use vstd::prelude::*;

verus! {

/// One header line: a name and the raw value that follows it.
#[derive(Debug)]
pub struct Header {
    pub name: Vec<u8>,
    pub value: Vec<u8>,
}

impl View for Header {
    type V = (Seq<u8>, Seq<u8>);

    open spec fn view(&self) -> (Seq<u8>, Seq<u8>) {
        (self.name@, self.value@)
    }
}

impl Clone for Header {
    fn clone(&self) -> (copy: Header)
        ensures
            copy@ == self@,
    {
        Header { name: self.name.clone(), value: self.value.clone() }
    }
}

/// The name and value pairs of a list of headers, in order.
pub open spec fn entries(headers: Seq<Header>) -> Seq<(Seq<u8>, Seq<u8>)> {
    Seq::new(headers.len(), |i: int| headers[i]@)
}

/// The value of the last entry whose name is `name`, letter case left aside.
pub open spec fn lookup(list: Seq<(Seq<u8>, Seq<u8>)>, name: Seq<u8>) -> Option<Seq<u8>>
    decreases list.len(),
{
    if list.len() == 0 {
        None
    } else if lowered(list.last().0) == lowered(name) {
        Some(list.last().1)
    } else {
        lookup(list.drop_last(), name)
    }
}

/// The entries as a mapping from lower-cased name to value, in which a later
/// entry replaces an earlier one of the same name.
pub open spec fn mapping(list: Seq<(Seq<u8>, Seq<u8>)>) -> Map<Seq<u8>, Seq<u8>>
    decreases list.len(),
{
    if list.len() == 0 {
        Map::empty()
    } else {
        mapping(list.drop_last()).insert(lowered(list.last().0), list.last().1)
    }
}

/// Looking a name up is reading the mapping at the lower-cased name.
pub proof fn lemma_lookup_reads_mapping(list: Seq<(Seq<u8>, Seq<u8>)>, name: Seq<u8>)
    ensures
        lookup(list, name) == if mapping(list).contains_key(lowered(name)) {
            Some(mapping(list)[lowered(name)])
        } else {
            None
        },
    decreases list.len(),
{
    if list.len() > 0 {
        lemma_lookup_reads_mapping(list.drop_last(), name);
    }
}

/// The value of the last header whose name is `name`, letter case left aside.
pub fn find_header<'a>(headers: &'a Vec<Header>, name: &[u8]) -> (value: Option<&'a Vec<u8>>)
    ensures
        match value {
            Some(found) => lookup(entries(headers@), name@) == Some(found@),
            None => lookup(entries(headers@), name@) is None,
        },
{
    let wanted = to_lower(name);
    let mut n: usize = headers.len();
    assert(entries(headers@).subrange(0, n as int) =~= entries(headers@));
    while n > 0
        invariant
            n <= headers@.len(),
            wanted@ == lowered(name@),
            lookup(entries(headers@), name@) == lookup(
                entries(headers@).subrange(0, n as int),
                name@,
            ),
        decreases n,
    {
        let ghost list = entries(headers@).subrange(0, n as int);
        assert(list.drop_last() =~= entries(headers@).subrange(0, n - 1));
        assert(list.last() == headers@[n - 1]@);
        let lower = to_lower(headers[n - 1].name.as_slice());
        if same(lower.as_slice(), wanted.as_slice()) {
            return Some(&headers[n - 1].value);
        }
        n = n - 1;
    }
    None
}

} // verus!
