use vstd::prelude::*;

verus! {

use vstd::utf8::is_ascii_chars;
use vstd::string::StringSliceAdditionalSpecFns;
use crate::tree::{TreeEntry, EntryModel, sort_entries, sort_of};

broadcast use crate::lemma_bytes_deep_view;

/// The SHA-1 digest, as the sha1 crate computes it: twenty bytes that are
/// a function of the input bytes alone. Nothing further is assumed of it.
pub uninterp spec fn sha1_of(data: Seq<u8>) -> Seq<u8>;

/// The lowercase hexadecimal digit for a value below sixteen.
pub open spec fn hex_digit(n: u8) -> char {
    if n == 0 {
        '0'
    } else if n == 1 {
        '1'
    } else if n == 2 {
        '2'
    } else if n == 3 {
        '3'
    } else if n == 4 {
        '4'
    } else if n == 5 {
        '5'
    } else if n == 6 {
        '6'
    } else if n == 7 {
        '7'
    } else if n == 8 {
        '8'
    } else if n == 9 {
        '9'
    } else if n == 10 {
        'a'
    } else if n == 11 {
        'b'
    } else if n == 12 {
        'c'
    } else if n == 13 {
        'd'
    } else if n == 14 {
        'e'
    } else {
        'f'
    }
}

/// Lowercase hexadecimal rendering of a byte sequence, two digits per
/// byte, high nibble first.
pub open spec fn hex_of(bytes: Seq<u8>) -> Seq<char>
    decreases bytes.len(),
{
    if bytes.len() == 0 {
        Seq::empty()
    } else {
        hex_of(bytes.drop_last()) + seq![
            hex_digit(bytes.last() / 16),
            hex_digit(bytes.last() % 16),
        ]
    }
}

pub proof fn lemma_hex_of_ascii(bytes: Seq<u8>)
    ensures
        is_ascii_chars(hex_of(bytes)),
    decreases bytes.len(),
{
    if bytes.len() > 0 {
        lemma_hex_of_ascii(bytes.drop_last());
    }
}

/// Relies on sha1::Sha1 (through sha1::Digest) together with the
/// lowercase-hex formatting of its twenty-byte digest: the digest is a
/// pure function of the input, rendered two lowercase digits per byte.
#[verifier::external_body]
fn sha1_hex(data: &Vec<u8>) -> (r: String)
    ensures
        r@ == hex_of(sha1_of(data@)),
{
    let digest = <sha1::Sha1 as sha1::Digest>::digest(data.as_slice());
    format!("{:x}", digest)
}

/// The bytes of an ASCII character sequence.
pub open spec fn ascii_bytes(s: Seq<char>) -> Seq<u8> {
    Seq::new(s.len(), |i: int| s[i] as u8)
}

/// One step of the rolling content hash: the digest of the current hex
/// state's bytes followed by the new block, rendered in hex again.
pub open spec fn add_to_hash_of(cur: Seq<char>, data: Seq<u8>) -> Seq<char> {
    hex_of(sha1_of(ascii_bytes(cur) + data))
}

/// Extend the rolling hash state by one block.
pub(crate) fn add_to_hash(cur_hash: &String, to_add: &[u8]) -> (r: String)
    requires
        is_ascii_chars(cur_hash@),
    ensures
        r@ == add_to_hash_of(cur_hash@, to_add@),
{
    broadcast use vstd::string::is_ascii_spec_bytes;

    let cs: &str = cur_hash.as_str();
    let cb: &[u8] = cs.as_bytes();
    proof {
        assert(vstd::string::is_ascii(cs));
        assert(cb@ =~= ascii_bytes(cur_hash@));
    }
    let mut input: Vec<u8> = Vec::new();
    input.extend_from_slice(cb);
    input.extend_from_slice(to_add);
    proof {
        assert(input@ =~= ascii_bytes(cur_hash@) + to_add@);
    }
    sha1_hex(&input)
}

/// The rolling hash of a sequence of entries: each entry contributes its
/// path bytes, and, for a file, its content bytes.
pub open spec fn entry_step(acc: Seq<char>, e: EntryModel) -> Seq<char> {
    let h = add_to_hash_of(acc, e.path);
    if e.is_file {
        add_to_hash_of(h, e.data)
    } else {
        h
    }
}

pub open spec fn hash_fold(acc: Seq<char>, t: Seq<EntryModel>) -> Seq<char>
    decreases t.len(),
{
    if t.len() == 0 {
        acc
    } else {
        entry_step(hash_fold(acc, t.drop_last()), t.last())
    }
}

/// The fixed seed of the rolling content hash: the digest of a fixed
/// tag, so that every commit id — the empty tree's included — has the
/// shape of a digest.
pub open spec fn hash_seed() -> Seq<char> {
    add_to_hash_of("vcs"@, Seq::<u8>::empty())
}

/// The content hash of a snapshot: the rolling hash folded over its
/// entries in canonical order. A pure function of tree shape and file
/// bytes, independent of the order in which the entries were listed.
pub open spec fn contents_hash_of(t: Seq<EntryModel>) -> Seq<char> {
    hash_fold(hash_seed(), sort_of(t))
}

/// Compute the content hash of the given files and folders.
pub fn get_contents_hash(contents: &Vec<TreeEntry>) -> (r: String)
    ensures
        r@ == contents_hash_of(contents.deep_view()),
{
    let sorted = sort_entries(contents);
    let ghost sm = sorted.deep_view();
    let tag: String = "vcs".to_owned();
    proof {
        reveal_strlit("vcs");
        assert(is_ascii_chars(tag@));
    }
    let empty_block: Vec<u8> = Vec::new();
    let mut h: String = add_to_hash(&tag, empty_block.as_slice());
    proof {
        assert(empty_block@ =~= Seq::<u8>::empty());
        assert(h@ == hash_seed());
        lemma_hex_of_ascii(sha1_of(ascii_bytes("vcs"@) + Seq::<u8>::empty()));
        assert(is_ascii_chars(h@));
        assert(sm.take(0) =~= Seq::<EntryModel>::empty());
    }
    let mut i: usize = 0;
    while i < sorted.len()
        invariant
            0 <= i <= sorted.len(),
            sm == sorted.deep_view(),
            sm.len() == sorted.len(),
            h@ == hash_fold(hash_seed(), sm.take(i as int)),
            is_ascii_chars(h@),
        decreases sorted.len() - i,
    {
        let ghost prefix1 = sm.take(i + 1);
        proof {
            assert(prefix1.drop_last() =~= sm.take(i as int));
            assert(prefix1.last() == sm[i as int]);
        }
        let entry = &sorted[i];
        h = add_to_hash(&h, entry.path.as_slice());
        proof {
            lemma_hex_of_ascii(sha1_of(ascii_bytes(hash_fold(hash_seed(), sm.take(i as int)))
                + sm[i as int].path));
        }
        if entry.is_file {
            h = add_to_hash(&h, entry.data.as_slice());
            proof {
                lemma_hex_of_ascii(sha1_of(ascii_bytes(add_to_hash_of(hash_fold(
                    hash_seed(),
                    sm.take(i as int),
                ), sm[i as int].path)) + sm[i as int].data));
            }
        }
        proof {
            assert(h@ == hash_fold(hash_seed(), prefix1));
        }
        i = i + 1;
    }
    proof {
        assert(sm.take(sorted.len() as int) =~= sm);
    }
    h
}

/// The content hash depends only on what the snapshot holds, not on the
/// order in which its entries were enumerated: two listings with the same
/// entries hash to the same commit id.
pub proof fn lemma_hash_order_independent(a: Seq<EntryModel>, b: Seq<EntryModel>)
    requires
        a.to_multiset() == b.to_multiset(),
    ensures
        contents_hash_of(a) == contents_hash_of(b),
{
    let leq = crate::tree::entry_leqf();
    crate::tree::lemma_entry_leq_total_ordering();
    a.lemma_sort_by_ensures(leq);
    b.lemma_sort_by_ensures(leq);
    vstd::seq_lib::lemma_sorted_unique(a.sort_by(leq), b.sort_by(leq), leq);
    assert(sort_of(a) == sort_of(b));
}

} // verus!
