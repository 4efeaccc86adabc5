//! The immutable image map: a flat JSON object of key/filename strings,
//! parsed into a strictly ascending key sequence with one filename per key,
//! plus the fingerprint of the raw text it was built from.

use vstd::prelude::*;
use vstd::slice::slice_index_get;
use vstd::string::StringExecFns;
use crate::fingerprint::{hash_content, spec_fingerprint};
use crate::filter::lower_bound;
use crate::order::{keys_view, lemma_lex_irrefl, lex_lt, sorted_ascending, str_eq};

verus! {

/// Declared so that serde_json's error type can stand in a trusted
/// signature.
#[verifier::external_type_specification]
#[verifier::external_body]
pub struct ExSerdeJsonError(serde_json::Error);

/// The flat string-to-string mapping a JSON text denotes, as its entry
/// sequence in strictly ascending key order, or none when the text is not a
/// JSON object with only string values.
pub uninterp spec fn json_string_map(text: Seq<char>) -> Option<Seq<(Seq<char>, Seq<char>)>>;

/// The views of a sequence of key/filename pairs.
pub open spec fn pairs_view(pairs: Seq<(String, String)>) -> Seq<(Seq<char>, Seq<char>)> {
    pairs.map_values(|p: (String, String)| (p.0@, p.1@))
}

/// The keys of an entry sequence.
pub open spec fn entry_keys(entries: Seq<(Seq<char>, Seq<char>)>) -> Seq<Seq<char>> {
    entries.map_values(|e: (Seq<char>, Seq<char>)| e.0)
}

/// Relies on serde_json::from_str::<BTreeMap<String, String>>: it succeeds
/// exactly when the text is a JSON object whose values are all strings, and
/// the map then iterates each key once, in ascending ordinal order.
#[verifier::external_body]
fn parse_json_string_map(text: &str) -> (r: Result<Vec<(String, String)>, serde_json::Error>)
    ensures
        match r {
            Ok(pairs) => {
                &&& json_string_map(text@) == Some(pairs_view(pairs@))
                &&& sorted_ascending(entry_keys(pairs_view(pairs@)))
            },
            Err(_) => json_string_map(text@) is None,
        },
{
    let map: std::collections::BTreeMap<String, String> = serde_json::from_str(text)?;
    Ok(map.into_iter().collect())
}

/// Malformed mapping text: not a flat JSON object of strings.
#[derive(Debug)]
pub struct ParseError;

/// An immutable snapshot of the key/filename mapping. Once constructed it is
/// never mutated; a changed mapping is always a brand-new instance.
pub struct ImageMap {
    /// The keys, strictly ascending.
    pub sorted_keys: Vec<String>,
    /// The filename behind each key, aligned with `sorted_keys`.
    pub filenames: Vec<String>,
    /// Fingerprint of the raw text this map was parsed from.
    pub fingerprint: u64,
}

impl ImageMap {
    /// The key/filename entries, in key order.
    pub open spec fn entries(self) -> Seq<(Seq<char>, Seq<char>)> {
        Seq::new(
            self.sorted_keys@.len(),
            |i: int| (self.sorted_keys@[i]@, self.filenames@[i]@),
        )
    }

    /// Well-formed: strictly ascending keys, one filename per key.
    pub open spec fn wf(self) -> bool {
        &&& self.filenames@.len() == self.sorted_keys@.len()
        &&& sorted_ascending(keys_view(self.sorted_keys@))
    }

    /// The filename the map holds for a key, if any.
    pub open spec fn spec_lookup(self, key: Seq<char>) -> Option<Seq<char>> {
        if exists|i: int| 0 <= i < self.entries().len() && self.entries()[i].0 == key {
            let i = choose|i: int| 0 <= i < self.entries().len() && self.entries()[i].0 == key;
            Some(self.entries()[i].1)
        } else {
            None
        }
    }

    /// Parses raw mapping text. Succeeds exactly when the text denotes a
    /// flat string-to-string object; the result then holds that mapping,
    /// sorted, together with the text's fingerprint. Nothing partially
    /// built is ever returned.
    pub fn parse(text: &str) -> (r: Result<ImageMap, ParseError>)
        ensures
            match r {
                Ok(m) => {
                    &&& m.wf()
                    &&& json_string_map(text@) == Some(m.entries())
                    &&& m.fingerprint == spec_fingerprint(text@)
                },
                Err(_) => json_string_map(text@) is None,
            },
    {
        let pairs = match parse_json_string_map(text) {
            Ok(pairs) => pairs,
            Err(_) => {
                return Err(ParseError);
            },
        };
        let mut sorted_keys: Vec<String> = Vec::new();
        let mut filenames: Vec<String> = Vec::new();
        let mut i: usize = 0;
        while i < pairs.len()
            invariant
                i <= pairs@.len(),
                sorted_keys@.len() == i,
                filenames@.len() == i,
                forall|j: int|
                    0 <= j < i ==> sorted_keys@[j]@ == pairs@[j].0@ && filenames@[j]@
                        == pairs@[j].1@,
            decreases pairs@.len() - i,
        {
            let p = slice_index_get(pairs.as_slice(), i);
            sorted_keys.push(p.0.clone());
            filenames.push(p.1.clone());
            i = i + 1;
        }
        let fp = hash_content(text);
        let m = ImageMap { sorted_keys, filenames, fingerprint: fp };
        proof {
            assert(m.entries() =~= pairs_view(pairs@));
            assert(keys_view(m.sorted_keys@) =~= entry_keys(pairs_view(pairs@)));
        }
        Ok(m)
    }

    /// Looks up the filename behind `key` by binary search.
    pub fn get<'a>(&'a self, key: &str) -> (r: Option<&'a String>)
        requires
            self.wf(),
        ensures
            match r {
                Some(f) => self.spec_lookup(key@) == Some(f@),
                None => self.spec_lookup(key@) is None,
            },
    {
        let keys = self.sorted_keys.as_slice();
        let cut = lower_bound(keys, key);
        if cut < self.sorted_keys.len() && str_eq(slice_index_get(keys, cut).as_str(), key) {
            proof {
                let es = self.entries();
                assert(es[cut as int].0 == key@);
                let w = choose|i: int| 0 <= i < es.len() && es[i].0 == key@;
                if w != cut as int {
                    assert(lex_lt(es[w].0, es[w].0)) by {
                        if w < cut as int {
                            assert(lex_lt(keys_view(self.sorted_keys@)[w], keys_view(self.sorted_keys@)[cut as int]));
                        } else {
                            assert(lex_lt(keys_view(self.sorted_keys@)[cut as int], keys_view(self.sorted_keys@)[w]));
                        }
                    }
                    lemma_lex_irrefl(es[w].0);
                }
            }
            Some(slice_index_get(self.filenames.as_slice(), cut))
        } else {
            proof {
                let es = self.entries();
                let kv = keys_view(self.sorted_keys@);
                assert forall|i: int| 0 <= i < es.len() implies es[i].0 != key@ by {
                    assert(es[i].0 == kv[i]);
                    if i < cut as int {
                        // everything before the cut is strictly below the key
                        if kv[i] == key@ {
                            lemma_lex_irrefl(key@);
                        }
                    } else if i == cut as int {
                        // in range, so the equality test itself said no
                        assert(kv[i] != key@);
                    } else {
                        // a later position equal to the key would put the cut
                        // position strictly below the key
                        if kv[i] == key@ {
                            assert(lex_lt(kv[cut as int], kv[i]));
                            assert(!lex_lt(kv[cut as int], key@));
                        }
                    }
                }
            }
            None
        }
    }

    /// Builds the redirect target `<prefix>/<filename>` for `key`, or none
    /// when the key is absent from the mapping.
    pub fn redirect_url(&self, prefix: &str, key: &str) -> (r: Option<String>)
        requires
            self.wf(),
        ensures
            match r {
                Some(url) => {
                    &&& self.spec_lookup(key@) matches Some(f) && url@ == prefix@ + "/"@ + f
                },
                None => self.spec_lookup(key@) is None,
            },
    {
        match self.get(key) {
            Some(filename) => {
                let mut url = String::from_str(prefix);
                url.append("/");
                url.append(filename.as_str());
                Some(url)
            },
            None => None,
        }
    }
}

} // verus!
