use vstd::prelude::*;

verus! {

/// Index of the last `c` in `s`, or -1.
pub open spec fn last_index_of(s: Seq<char>, c: char) -> int
    decreases s.len(),
{
    if s.len() == 0 {
        -1
    } else if s.last() == c {
        s.len() - 1
    } else {
        last_index_of(s.drop_last(), c)
    }
}

/// Where a compressed file is written out: the same path without the last
/// extension of its file name (`a/b.fit.gz` gives `a/b.fit`). A name that
/// starts with its only dot has no extension. `None` where the path names no
/// file.
pub open spec fn destination_of(path: Seq<char>) -> Option<Seq<char>> {
    let slash = last_index_of(path, '/');
    let dot = last_index_of(path, '.');
    let name = path.subrange(slash + 1, path.len() as int);
    if name.len() == 0 || name == seq!['.'] || name == seq!['.', '.'] {
        None
    } else if dot > slash + 1 {
        Some(path.subrange(0, dot))
    } else {
        Some(path)
    }
}

proof fn lemma_last_index_bounds(s: Seq<char>, c: char)
    ensures
        -1 <= last_index_of(s, c) < s.len(),
    decreases s.len(),
{
    if s.len() > 0 {
        lemma_last_index_bounds(s.drop_last(), c);
    }
}

/// The path that a `.gz` file decompresses to.
pub fn get_destination_path(src: &str) -> (r: Option<String>)
    ensures
        r matches Some(d) ==> destination_of(src@) == Some(d@),
        r is None ==> destination_of(src@) is None,
{
    let n = src.unicode_len();
    // one past the last separator and the last dot seen so far, zero for none
    let mut name_start: usize = 0;
    let mut dot_end: usize = 0;
    let mut i: usize = 0;
    proof {
        assert(src@.subrange(0, 0) =~= Seq::<char>::empty());
    }
    while i < n
        invariant
            n == src@.len(),
            i <= n,
            name_start == last_index_of(src@.subrange(0, i as int), '/') + 1,
            dot_end == last_index_of(src@.subrange(0, i as int), '.') + 1,
        decreases n - i,
    {
        let c = src.get_char(i);
        proof {
            let next = src@.subrange(0, i as int + 1);
            assert(next.drop_last() =~= src@.subrange(0, i as int));
            assert(next.last() == c);
            lemma_last_index_bounds(src@.subrange(0, i as int), '/');
            lemma_last_index_bounds(src@.subrange(0, i as int), '.');
        }
        if c == '/' {
            name_start = i + 1;
        }
        if c == '.' {
            dot_end = i + 1;
        }
        i = i + 1;
    }
    proof {
        assert(src@.subrange(0, n as int) =~= src@);
        lemma_last_index_bounds(src@, '/');
        lemma_last_index_bounds(src@, '.');
    }
    let name = src.substring_char(name_start, n);
    let name_len = n - name_start;
    if name_len == 0 {
        return None;
    }
    if name_len <= 2 && name.get_char(0) == '.' && (name_len == 1 || name.get_char(1) == '.') {
        proof {
            if name_len == 1 {
                assert(name@ =~= seq!['.']);
            } else {
                assert(name@ =~= seq!['.', '.']);
            }
        }
        return None;
    }
    proof {
        assert(name@ != seq!['.']) by {
            if name_len == 1 {
                assert(name@[0] != '.');
            }
        }
        assert(name@ != seq!['.', '.']) by {
            if name_len == 2 {
                assert(name@[0] != '.' || name@[1] != '.');
            }
        }
    }
    if dot_end > name_start + 1 {
        Some(src.substring_char(0, dot_end - 1).to_string())
    } else {
        Some(src.to_string())
    }
}

/// What the gzip data `data` decompresses to; `None` where it is not valid
/// gzip data.
pub uninterp spec fn gunzip(data: Seq<u8>) -> Option<Seq<u8>>;

/// Relies on flate2's `read::GzDecoder`, read to its end, to decode gzip
/// data; the result depends on the bytes alone.
#[verifier::external_body]
fn gz_decode(data: &[u8]) -> (r: Option<Vec<u8>>)
    ensures
        match r {
            Some(v) => gunzip(data@) == Some(v@),
            None => gunzip(data@) is None,
        },
{
    let mut decoder = flate2::read::GzDecoder::new(data);
    let mut out = Vec::new();
    match std::io::Read::read_to_end(&mut decoder, &mut out) {
        Ok(_) => Some(out),
        Err(_) => None,
    }
}

/// Why compressed data could not be expanded.
#[derive(Clone, Copy, Debug, PartialEq, Eq, Structural)]
pub enum DecompressError {
    /// The data is not valid gzip.
    InvalidData,
}

/// The contents of a `.gz` file, decompressed.
pub fn decompress_gz(compressed: &[u8]) -> (r: Result<Vec<u8>, DecompressError>)
    ensures
        match gunzip(compressed@) {
            Some(d) => r matches Ok(v) && v@ == d,
            None => r == Err::<Vec<u8>, DecompressError>(DecompressError::InvalidData),
        },
{
    match gz_decode(compressed) {
        Some(v) => Ok(v),
        None => Err(DecompressError::InvalidData),
    }
}

} // verus!
