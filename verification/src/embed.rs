//! A migration source backed by an in-memory map from file-name bytes to
//! content bytes, for scripts embedded in the binary.

use vstd::prelude::*;
use std::collections::HashMap;
use vstd::utf8::{decode_utf8, valid_utf8};
use crate::{MigrationFile, Reader};

verus! {

pub struct EmbedReader {
    files: HashMap<Vec<u8>, Vec<u8>>,
}

impl EmbedReader {
    /// The embedded entries, as the map given at construction.
    pub closed spec fn entries(&self) -> HashMap<Vec<u8>, Vec<u8>> {
        self.files
    }

    pub fn new(files: HashMap<Vec<u8>, Vec<u8>>) -> (r: EmbedReader)
        ensures
            r.entries() == files,
    {
        EmbedReader { files }
    }

    /// Decode every embedded entry into a migration file, in the map's
    /// iteration order: on success, every entry exactly once; the first entry
    /// that is not valid UTF-8 fails the read with that failure's text, and a
    /// read of a map whose entries are all valid UTF-8 succeeds.
    pub fn migrations(&self) -> (r: Result<Vec<MigrationFile>, String>)
        ensures
            r matches Ok(fs) ==> files_decode_entries(self.entries(), fs@),
            r matches Err(e) ==> exists|k: Vec<u8>|
                #![auto]
                self.entries()@.contains_key(k) && ((!valid_utf8(k@) && e@ == utf8_error_text(k@))
                    || (valid_utf8(k@) && !valid_utf8(self.entries()@[k]@) && e@ == utf8_error_text(
                    self.entries()@[k]@,
                ))),
            (forall|k: Vec<u8>|
                #![auto]
                self.entries()@.contains_key(k) ==> valid_utf8(k@) && valid_utf8(
                    self.entries()@[k]@,
                )) ==> r is Ok,
    {
        let pairs = map_entries(&self.files);
        let r = files_from_pairs(&pairs);
        proof {
            match &r {
                Ok(fs) => {
                    assert(fs@.len() == self.entries()@.len());
                    assert forall|i: int| 0 <= i < fs@.len() implies file_from_entry(
                        self.entries(),
                        #[trigger] fs@[i],
                    ) by {
                        let k0 = pairs@[i].0;
                        assert(self.entries()@.contains_key(k0));
                        assert(self.entries()@[k0] == pairs@[i].1);
                        assert(fs@[i].name@ == decode_utf8(k0@));
                        assert(fs@[i].contents@ == decode_utf8(self.entries()@[k0]@));
                    }
                    assert forall|i: int, j: int| 0 <= i < j < fs@.len() implies (
                    #[trigger] fs@[i]).name@ != (#[trigger] fs@[j]).name@ by {
                        assert(pair_decodes(pairs@[i]) && pair_decodes(pairs@[j]));
                        vstd::utf8::decode_utf8_encode_utf8(pairs@[i].0@);
                        vstd::utf8::decode_utf8_encode_utf8(pairs@[j].0@);
                        assert(pairs@[i].0@ != pairs@[j].0@);
                        assert(fs@[i].name@ == decode_utf8(pairs@[i].0@));
                        assert(fs@[j].name@ == decode_utf8(pairs@[j].0@));
                    }
                },
                Err(e) => {
                    let i = choose|i: int|
                        0 <= i < pairs@.len() && !pair_decodes(#[trigger] pairs@[i]) && (forall|
                            j: int,
                        |
                            0 <= j < i ==> pair_decodes(#[trigger] pairs@[j])) && e@ == (
                        if !valid_utf8(pairs@[i].0@) {
                            utf8_error_text(pairs@[i].0@)
                        } else {
                            utf8_error_text(pairs@[i].1@)
                        });
                    let k0 = pairs@[i].0;
                    assert(self.entries()@.contains_key(k0));
                    assert(self.entries()@[k0] == pairs@[i].1);
                },
            }
        }
        r
    }
}

/// The file decodes one of the map's entries: its key as the name, its value
/// as the contents.
pub open spec fn file_from_entry(entries: HashMap<Vec<u8>, Vec<u8>>, f: MigrationFile) -> bool {
    exists|k: Vec<u8>|
        #![auto]
        entries@.contains_key(k) && f.name@ == decode_utf8(k@) && f.contents@ == decode_utf8(
            entries@[k]@,
        )
}

/// The files are the map's entries, decoded, each entry exactly once: one file
/// per entry, each file decoding an entry's key as its name and that entry's
/// value as its contents, and no two files sharing a name — so no entry is
/// decoded twice and, the counts being equal, none is dropped.
pub open spec fn files_decode_entries(
    entries: HashMap<Vec<u8>, Vec<u8>>,
    fs: Seq<MigrationFile>,
) -> bool {
    &&& fs.len() == entries@.len()
    &&& forall|i: int| 0 <= i < fs.len() ==> file_from_entry(entries, #[trigger] fs[i])
    &&& forall|i: int, j: int|
        0 <= i < j < fs.len() ==> (#[trigger] fs[i]).name@ != (#[trigger] fs[j]).name@
}

/// Relies on std's HashMap iteration: it yields exactly the map's entries,
/// every key once — keys are unique by their bytes — but in an order that
/// varies by process, so nothing is stated of the order.
#[verifier::external_body]
fn map_entries(m: &HashMap<Vec<u8>, Vec<u8>>) -> (r: Vec<(Vec<u8>, Vec<u8>)>)
    ensures
        r@.len() == vstd::std_specs::hash::spec_hash_map_len(m),
        r@.len() == m@.len(),
        forall|i: int|
            0 <= i < r@.len() ==> m@.contains_key((#[trigger] r@[i]).0) && m@[r@[i].0] == r@[i].1,
        forall|i: int, j: int|
            0 <= i < j < r@.len() ==> (#[trigger] r@[i]).0@ != (#[trigger] r@[j]).0@,
{
    m.iter().map(|(k, v)| (k.clone(), v.clone())).collect()
}

/// The text std renders a UTF-8 decoding failure of these bytes as: a function
/// of the bytes alone.
pub uninterp spec fn utf8_error_text(b: Seq<u8>) -> Seq<char>;

/// Relies on String::from_utf8: `Ok` exactly on valid UTF-8, decoding it; the
/// error is its text rendering, named `utf8_error_text`.
#[verifier::external_body]
fn utf8_to_string(bytes: Vec<u8>) -> (r: Result<String, String>)
    ensures
        r is Ok <==> valid_utf8(bytes@),
        r matches Ok(s) ==> s@ == decode_utf8(bytes@),
        r matches Err(e) ==> e@ == utf8_error_text(bytes@),
{
    String::from_utf8(bytes).map_err(|e| e.to_string())
}

fn clone_bytes(v: &Vec<u8>) -> (r: Vec<u8>)
    ensures
        r@ == v@,
{
    let mut r: Vec<u8> = Vec::new();
    let mut i: usize = 0;
    while i < v.len()
        invariant
            0 <= i <= v@.len(),
            r@ == v@.take(i as int),
        decreases v@.len() - i,
    {
        r.push(v[i]);
        proof {
            assert(v@.take(i as int).push(v@[i as int]) =~= v@.take(i + 1));
        }
        i = i + 1;
    }
    proof {
        assert(v@.take(v@.len() as int) =~= v@);
    }
    r
}

/// Whether a raw name/content pair decodes: both sides are valid UTF-8.
pub open spec fn pair_decodes(p: (Vec<u8>, Vec<u8>)) -> bool {
    valid_utf8(p.0@) && valid_utf8(p.1@)
}

/// Decode raw name/content pairs into migration files, in order; the first
/// pair that is not valid UTF-8 aborts with that failure's text, the name's
/// before the contents'.
pub fn files_from_pairs(pairs: &Vec<(Vec<u8>, Vec<u8>)>) -> (r: Result<Vec<MigrationFile>, String>)
    ensures
        r is Ok <==> (forall|i: int| 0 <= i < pairs@.len() ==> pair_decodes(#[trigger] pairs@[i])),
        r matches Ok(fs) ==> fs@.len() == pairs@.len() && (forall|i: int|
            0 <= i < pairs@.len() ==> (#[trigger] fs@[i]).name@ == decode_utf8(pairs@[i].0@)
                && fs@[i].contents@ == decode_utf8(pairs@[i].1@)),
        r matches Err(e) ==> exists|i: int|
            0 <= i < pairs@.len() && !pair_decodes(#[trigger] pairs@[i]) && (forall|j: int|
                0 <= j < i ==> pair_decodes(#[trigger] pairs@[j])) && e@ == (if !valid_utf8(
                pairs@[i].0@,
            ) {
                utf8_error_text(pairs@[i].0@)
            } else {
                utf8_error_text(pairs@[i].1@)
            }),
{
    let mut fs: Vec<MigrationFile> = Vec::new();
    let mut i: usize = 0;
    while i < pairs.len()
        invariant
            0 <= i <= pairs@.len(),
            fs@.len() == i,
            forall|j: int| 0 <= j < i ==> pair_decodes(#[trigger] pairs@[j]),
            forall|j: int|
                0 <= j < i ==> (#[trigger] fs@[j]).name@ == decode_utf8(pairs@[j].0@)
                    && fs@[j].contents@ == decode_utf8(pairs@[j].1@),
        decreases pairs@.len() - i,
    {
        let pair = &pairs[i];
        let name = match utf8_to_string(clone_bytes(&pair.0)) {
            Ok(s) => s,
            Err(e) => {
                return Err(e);
            },
        };
        let contents = match utf8_to_string(clone_bytes(&pair.1)) {
            Ok(s) => s,
            Err(e) => {
                return Err(e);
            },
        };
        fs.push(MigrationFile { name, contents });
        i = i + 1;
    }
    Ok(fs)
}

impl Reader for EmbedReader {
    /// Decode every embedded entry into a migration file. The trait carries no
    /// contract; the specified work stands on [`EmbedReader::migrations`].
    fn read_migrations(&self) -> Result<Vec<MigrationFile>, String> {
        self.migrations()
    }
}

} // verus!
