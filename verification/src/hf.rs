//! Which files of a HuggingFace SafeTensors snapshot a node needs.
//!
//! Tensor names follow the Llama / Mistral conventions:
//! `model.layers.{n}.*` belongs to transformer block `n`,
//! `model.embed_tokens.*` to the first node, `model.norm.*` and `lm_head.*`
//! to the last node; any other tensor goes to the first or the last node.

use vstd::prelude::*;

use crate::config::{opt_view, strings_view};
use crate::fmt::{dec_spec, lemma_dec_spec_reads_back};
use crate::parse::{
    all_digits, ascii_lower, ends_with_lit, eq_lit, has_prefix, has_suffix, is_digit, lower_all,
    parse_unsigned, parse_unsigned_spec, starts_with, starts_with_lit, sub_chars,
};
use crate::text::{chars_of, string_of};

verus! {

/// The position of the first `c` in `s`.
pub open spec fn first_index_of(s: Seq<char>, c: char) -> Option<int>
    decreases s.len(),
{
    if s.len() == 0 {
        None
    } else {
        match first_index_of(s.drop_last(), c) {
            Some(i) => Some(i),
            None => if s.last() == c {
                Some(s.len() - 1)
            } else {
                None
            },
        }
    }
}

/// What `first_index_of` finds: the least position holding `c`, or, when it
/// finds none, that `c` does not occur.
pub proof fn lemma_first_index_of(s: Seq<char>, c: char)
    ensures
        first_index_of(s, c) matches Some(i) ==> 0 <= i < s.len() && s[i] == c && forall|k: int|
            0 <= k < i ==> s[k] != c,
        first_index_of(s, c) is None ==> forall|k: int| 0 <= k < s.len() ==> s[k] != c,
    decreases s.len(),
{
    if s.len() > 0 {
        lemma_first_index_of(s.drop_last(), c);
        assert forall|k: int| 0 <= k < s.len() - 1 implies s[k] == s.drop_last()[k] by {}
    }
}

/// A position holding `c`, with no `c` before it, is the first one.
pub proof fn lemma_first_index_of_at(s: Seq<char>, c: char, i: int)
    requires
        0 <= i < s.len(),
        s[i] == c,
        forall|k: int| 0 <= k < i ==> s[k] != c,
    ensures
        first_index_of(s, c) == Some(i),
    decreases s.len(),
{
    if i < s.len() - 1 {
        assert(s.drop_last()[i] == c);
        lemma_first_index_of_at(s.drop_last(), c, i);
    } else {
        lemma_first_index_of(s.drop_last(), c);
        if first_index_of(s.drop_last(), c) is Some {
            let j = first_index_of(s.drop_last(), c)->Some_0;
            assert(s[j] == s.drop_last()[j]);
        }
    }
}

/// The position of the first `c` in `s`.
pub fn find_char(s: &Vec<char>, c: char) -> (r: Option<usize>)
    ensures
        match r {
            Some(i) => first_index_of(s@, c) == Some(i as int),
            None => first_index_of(s@, c) is None,
        },
{
    let mut i: usize = 0;
    while i < s.len()
        invariant
            i <= s.len(),
            forall|k: int| 0 <= k < i ==> s@[k] != c,
        decreases s.len() - i,
    {
        if s[i] == c {
            proof {
                lemma_first_index_of_at(s@, c, i as int);
            }
            return Some(i);
        }
        i = i + 1;
    }
    proof {
        lemma_first_index_of(s@, c);
        if first_index_of(s@, c) is Some {
            let j = first_index_of(s@, c)->Some_0;
            assert(s@[j] == c);
        }
    }
    None
}

/// The block number of a `model.layers.{n}.…` tensor: the text between the
/// prefix and the next `.`, read as a `usize`.
pub open spec fn layer_number(name: Seq<char>) -> Option<int> {
    let rest = name.skip("model.layers."@.len() as int);
    match first_index_of(rest, '.') {
        Some(d) => parse_unsigned_spec(rest.take(d), usize::MAX as int),
        None => None,
    }
}

/// Whether a node serving blocks `[start, end)` (and, when `is_first` or
/// `is_last`, the ends of the model) needs the tensor `name`.
pub open spec fn tensor_needed_spec(
    name: Seq<char>,
    start: int,
    end: int,
    is_first: bool,
    is_last: bool,
) -> bool {
    if has_prefix(name, "model.layers."@) {
        match layer_number(name) {
            Some(n) => start <= n < end,
            None => false,
        }
    } else if has_prefix(name, "model.embed_tokens."@) {
        is_first
    } else if has_prefix(name, "model.norm."@) || has_prefix(name, "lm_head."@) {
        is_last
    } else {
        is_first || is_last
    }
}

/// Returns true when `tensor_name` is needed for the given block range and
/// role: a layer tensor when its block lies in `[start_block, end_block)`
/// (a malformed layer name never), the embedding table on the first node,
/// the final norm and the language-model head on the last node, and any
/// other tensor on the first or the last node.
pub fn is_tensor_needed(
    tensor_name: &str,
    start_block: usize,
    end_block: usize,
    is_first: bool,
    is_last: bool,
) -> (r: bool)
    ensures
        r == tensor_needed_spec(
            tensor_name@,
            start_block as int,
            end_block as int,
            is_first,
            is_last,
        ),
{
    let name = chars_of(tensor_name);
    let prefix = chars_of("model.layers.");
    if starts_with(&name, &prefix) {
        let rest = sub_chars(&name, prefix.len(), name.len());
        assert(rest@ =~= name@.skip("model.layers."@.len() as int));
        match find_char(&rest, '.') {
            Some(dot) => {
                proof {
                    lemma_first_index_of(rest@, '.');
                }
                let digits = sub_chars(&rest, 0, dot);
                assert(digits@ =~= rest@.take(dot as int));
                match parse_unsigned(&digits, usize::MAX as u64) {
                    Some(n) => start_block as u64 <= n && n < end_block as u64,
                    None => false,
                }
            },
            None => false,
        }
    } else if starts_with_lit(&name, "model.embed_tokens.") {
        is_first
    } else if starts_with_lit(&name, "model.norm.") || starts_with_lit(&name, "lm_head.") {
        is_last
    } else {
        is_first || is_last
    }
}

/// A layer tensor is needed exactly when its block lies in the served
/// range, whatever the node's role and whatever follows the block number.
pub proof fn law_layer_tensor_needed_iff_in_range(
    n: nat,
    rest: Seq<char>,
    start: int,
    end: int,
    is_first: bool,
    is_last: bool,
)
    requires
        n <= usize::MAX,
    ensures
        tensor_needed_spec(
            "model.layers."@ + dec_spec(n) + seq!['.'] + rest,
            start,
            end,
            is_first,
            is_last,
        ) == (start <= n < end),
{
    let p = "model.layers."@;
    let d = dec_spec(n);
    let name = p + d + seq!['.'] + rest;
    lemma_dec_spec_reads_back(n);
    assert(name.subrange(0, p.len() as int) =~= p);
    let tail = name.skip(p.len() as int);
    assert(tail =~= d + seq!['.'] + rest);
    assert forall|k: int| 0 <= k < d.len() implies tail[k] != '.' by {
        assert(tail[k] == d[k]);
        assert(is_digit(d[k]));
    }
    lemma_first_index_of_at(tail, '.', d.len() as int);
    assert(tail.take(d.len() as int) =~= d);
    assert(is_digit(d[0]));
    assert(layer_number(name) == Some(n as int));
}

/// File names (already lowercased) of the small metadata files every node
/// downloads.
pub open spec fn is_metadata_name(lower: Seq<char>) -> bool {
    lower == "config.json"@ || lower == "generation_config.json"@ || lower == "tokenizer.json"@
        || lower == "tokenizer_config.json"@ || lower == "special_tokens_map.json"@ || lower
        == "tokenizer.model"@ || lower == "model.safetensors.index.json"@
}

/// Executable form of [`is_metadata_name`].
pub fn is_metadata_file(lower: &Vec<char>) -> (r: bool)
    ensures
        r == is_metadata_name(lower@),
{
    eq_lit(lower, "config.json") || eq_lit(lower, "generation_config.json") || eq_lit(
        lower,
        "tokenizer.json",
    ) || eq_lit(lower, "tokenizer_config.json") || eq_lit(lower, "special_tokens_map.json")
        || eq_lit(lower, "tokenizer.model") || eq_lit(lower, "model.safetensors.index.json")
}

/// A file of a full snapshot download: a metadata file or a SafeTensors
/// file, the name compared without regard to ASCII case.
pub open spec fn should_download_spec(name: Seq<char>) -> bool {
    is_metadata_name(ascii_lower(name)) || has_suffix(ascii_lower(name), ".safetensors"@)
}

/// Returns true for files needed by SafeTensors distributed inference.
pub fn should_download(fname: &str) -> (r: bool)
    ensures
        r == should_download_spec(fname@),
{
    let lower = lower_all(&chars_of(fname));
    is_metadata_file(&lower) || ends_with_lit(&lower, ".safetensors")
}

/// The files of a repository that a full snapshot download fetches, in the
/// repository's order.
pub fn files_to_download(repo_files: &Vec<String>) -> (r: Vec<String>)
    ensures
        r@ == repo_files@.filter(|f: String| should_download_spec(f@)),
{
    let ghost pred = |f: String| should_download_spec(f@);
    let mut r: Vec<String> = Vec::new();
    let mut i: usize = 0;
    while i < repo_files.len()
        invariant
            i <= repo_files.len(),
            pred == (|f: String| should_download_spec(f@)),
            r@ == repo_files@.take(i as int).filter(pred),
        decreases repo_files.len() - i,
    {
        proof {
            reveal(Seq::filter);
            assert(repo_files@.take(i + 1).drop_last() =~= repo_files@.take(i as int));
            assert(repo_files@.take(i + 1).last() == repo_files@[i as int]);
        }
        let ghost before = r@;
        if should_download(repo_files[i].as_str()) {
            r.push(repo_files[i].clone());
        }
        assert(pred(repo_files@[i as int]) == should_download_spec(repo_files@[i as int]@));
        assert(r@ == if pred(repo_files@[i as int]) {
            before.push(repo_files@[i as int])
        } else {
            before
        });
        i = i + 1;
    }
    proof {
        reveal(Seq::filter);
        assert(repo_files@.take(repo_files@.len() as int) =~= repo_files@);
    }
    r
}

/// Whether a block-range download keeps the repository file `name`:
/// metadata files always; when the index selected weight files, exactly
/// those; otherwise every SafeTensors file.
pub open spec fn keep_for_blocks(name: Seq<char>, weight_files: Seq<Seq<char>>) -> bool {
    if is_metadata_name(ascii_lower(name)) {
        true
    } else if weight_files.len() > 0 {
        weight_files.contains(name)
    } else {
        has_suffix(ascii_lower(name), ".safetensors"@)
    }
}

/// Whether `name` is one of `list`.
fn contains_string(list: &Vec<String>, name: &String) -> (r: bool)
    ensures
        r == strings_view(list@).contains(name@),
{
    let mut i: usize = 0;
    while i < list.len()
        invariant
            i <= list.len(),
            forall|k: int| 0 <= k < i ==> list@[k]@ != name@,
        decreases list.len() - i,
    {
        if list[i] == *name {
            assert(strings_view(list@)[i as int] == name@);
            return true;
        }
        i = i + 1;
    }
    proof {
        if strings_view(list@).contains(name@) {
            let k = choose|k: int| 0 <= k < strings_view(list@).len() && strings_view(list@)[k] == name@;
            assert(list@[k]@ == name@);
        }
    }
    false
}

/// The files of a repository that a download for a block range fetches, in
/// the repository's order: metadata files, plus the selected weight files
/// (every SafeTensors file when none were selected).
pub fn files_for_blocks(repo_files: &Vec<String>, weight_files: &Vec<String>) -> (r: Vec<String>)
    ensures
        r@ == repo_files@.filter(|f: String| keep_for_blocks(f@, strings_view(weight_files@))),
{
    let ghost pred = |f: String| keep_for_blocks(f@, strings_view(weight_files@));
    let mut r: Vec<String> = Vec::new();
    let mut i: usize = 0;
    while i < repo_files.len()
        invariant
            i <= repo_files.len(),
            pred == (|f: String| keep_for_blocks(f@, strings_view(weight_files@))),
            r@ == repo_files@.take(i as int).filter(pred),
        decreases repo_files.len() - i,
    {
        proof {
            reveal(Seq::filter);
            assert(repo_files@.take(i + 1).drop_last() =~= repo_files@.take(i as int));
            assert(repo_files@.take(i + 1).last() == repo_files@[i as int]);
        }
        let f = &repo_files[i];
        let lower = lower_all(&chars_of(f.as_str()));
        let keep = if is_metadata_file(&lower) {
            true
        } else if weight_files.len() > 0 {
            contains_string(weight_files, f)
        } else {
            ends_with_lit(&lower, ".safetensors")
        };
        let ghost before = r@;
        if keep {
            r.push(f.clone());
        }
        assert(pred(repo_files@[i as int]) == keep_for_blocks(
            repo_files@[i as int]@,
            strings_view(weight_files@),
        ));
        assert(r@ == if pred(repo_files@[i as int]) {
            before.push(repo_files@[i as int])
        } else {
            before
        });
        i = i + 1;
    }
    proof {
        reveal(Seq::filter);
        assert(repo_files@.take(repo_files@.len() as int) =~= repo_files@);
    }
    r
}

/// Metadata files (`config.json`, the tokenizer files, the index, ...) are
/// part of every download, whole-model or block-range, whatever weight
/// files were selected.
pub proof fn law_metadata_always_downloaded(name: Seq<char>, weight_files: Seq<Seq<char>>)
    requires
        is_metadata_name(ascii_lower(name)),
    ensures
        should_download_spec(name),
        keep_for_blocks(name, weight_files),
{
}

/// With weight files selected, a block-range download takes exactly the
/// metadata files and those weight files; otherwise it takes exactly what a
/// whole-model download takes.
pub proof fn law_block_download_selection(name: Seq<char>, weight_files: Seq<Seq<char>>)
    ensures
        weight_files.len() > 0 ==> (keep_for_blocks(name, weight_files) <==> (is_metadata_name(
            ascii_lower(name),
        ) || weight_files.contains(name))),
        weight_files.len() == 0 ==> (keep_for_blocks(name, weight_files) <==> should_download_spec(
            name,
        )),
{
}

/// The `(tensor name, file)` pairs of an index's weight map, by their
/// characters; a file that is not a string is `None`.
pub open spec fn entries_view(entries: Seq<(String, Option<String>)>) -> Seq<(Seq<char>, Option<Seq<char>>)> {
    entries.map_values(|e: (String, Option<String>)| (e.0@, opt_view(e.1)))
}

/// The weight files that hold the tensors a node needs, each once, in the
/// order of their first needed tensor.
pub open spec fn needed_files_spec(
    entries: Seq<(Seq<char>, Option<Seq<char>>)>,
    start: int,
    end: int,
    is_first: bool,
    is_last: bool,
) -> Seq<Seq<char>>
    decreases entries.len(),
{
    if entries.len() == 0 {
        Seq::empty()
    } else {
        let prev = needed_files_spec(entries.drop_last(), start, end, is_first, is_last);
        let (tensor, file) = entries.last();
        match file {
            Some(f) => if tensor_needed_spec(tensor, start, end, is_first, is_last)
                && !prev.contains(f) {
                prev.push(f)
            } else {
                prev
            },
            None => prev,
        }
    }
}

/// The weight files needed for `[start_block, end_block)` and the node's
/// role, from the `(tensor name, file)` pairs of the index's weight map.
pub fn needed_weight_files(
    entries: &Vec<(String, Option<String>)>,
    start_block: usize,
    end_block: usize,
    is_first: bool,
    is_last: bool,
) -> (r: Vec<String>)
    ensures
        strings_view(r@) == needed_files_spec(
            entries_view(entries@),
            start_block as int,
            end_block as int,
            is_first,
            is_last,
        ),
{
    let ghost ev = entries_view(entries@);
    let mut r: Vec<String> = Vec::new();
    let mut i: usize = 0;
    while i < entries.len()
        invariant
            i <= entries.len(),
            ev == entries_view(entries@),
            strings_view(r@) == needed_files_spec(
                ev.take(i as int),
                start_block as int,
                end_block as int,
                is_first,
                is_last,
            ),
        decreases entries.len() - i,
    {
        proof {
            assert(ev.take(i + 1).drop_last() =~= ev.take(i as int));
            assert(ev.take(i + 1).last() == ev[i as int]);
        }
        let (tensor, file) = &entries[i];
        match file {
            Some(f) => {
                if is_tensor_needed(tensor.as_str(), start_block, end_block, is_first, is_last)
                    && !contains_string(&r, f) {
                    r.push(f.clone());
                    assert(strings_view(r@) =~= strings_view(r@.drop_last()).push(f@));
                }
            },
            None => {},
        }
        i = i + 1;
    }
    assert(ev.take(ev.len() as int) =~= ev);
    r
}

/// The weight map of a `model.safetensors.index.json` text: `None` when the
/// text is not JSON, `Some(None)` when it has no `weight_map` object, else
/// its `(tensor name, file)` pairs.
pub uninterp spec fn index_weight_map(text: Seq<char>) -> Option<
    Option<Seq<(Seq<char>, Option<Seq<char>>)>>,
>;

/// The characters of a parsed weight map.
pub open spec fn weight_map_view(w: Option<Option<Vec<(String, Option<String>)>>>) -> Option<
    Option<Seq<(Seq<char>, Option<Seq<char>>)>>,
> {
    match w {
        None => None,
        Some(None) => Some(None),
        Some(Some(v)) => Some(Some(entries_view(v@))),
    }
}

/// Parses an index text with `serde_json::from_str` into a JSON value and
/// reads its `weight_map` object: each key with its value's string, if the
/// value is a string.  The contract names the outcome and says nothing of
/// how JSON is read, nor of the order of the pairs (serde_json's map order).
#[verifier::external_body]
fn read_weight_map(text: &str) -> (r: Option<Option<Vec<(String, Option<String>)>>>)
    ensures
        weight_map_view(r) == index_weight_map(text@),
{
    match serde_json::from_str::<serde_json::Value>(text) {
        Err(_) => None,
        Ok(json) => Some(
            json["weight_map"].as_object().map(
                |m| m.iter().map(|(k, v)| (k.clone(), v.as_str().map(String::from))).collect(),
            ),
        ),
    }
}

/// What an index file says about the weight files a node needs.
#[derive(Debug)]
pub enum IndexNeeds {
    /// The index is not JSON.
    Unreadable,
    /// The index has no `weight_map`: a single-file model.
    NoWeightMap,
    /// The weight files that hold the needed tensors.
    Files(Vec<String>),
}

/// The weight files named by the index text `index_text` that a node
/// serving `[start_block, end_block)` needs.
pub fn index_needed_files(
    index_text: &str,
    start_block: usize,
    end_block: usize,
    is_first: bool,
    is_last: bool,
) -> (r: IndexNeeds)
    ensures
        match index_weight_map(index_text@) {
            None => r is Unreadable,
            Some(None) => r is NoWeightMap,
            Some(Some(es)) => r matches IndexNeeds::Files(v) && strings_view(v@)
                == needed_files_spec(es, start_block as int, end_block as int, is_first, is_last),
        },
{
    match read_weight_map(index_text) {
        None => IndexNeeds::Unreadable,
        Some(None) => IndexNeeds::NoWeightMap,
        Some(Some(entries)) => IndexNeeds::Files(
            needed_weight_files(&entries, start_block, end_block, is_first, is_last),
        ),
    }
}

/// The weight files a download selects: those the index names where it
/// has a weight map, else none, which makes the download fall back to
/// every SafeTensors file.
pub fn weight_files_for(needs: IndexNeeds) -> (r: Vec<String>)
    ensures
        match needs {
            IndexNeeds::Files(v) => r@ == v@,
            _ => r@.len() == 0,
        },
{
    match needs {
        IndexNeeds::Files(v) => v,
        _ => Vec::new(),
    }
}

/// `s` with every `/` written as `--`.
pub open spec fn slashes_as_dashes(s: Seq<char>) -> Seq<char>
    decreases s.len(),
{
    if s.len() == 0 {
        s
    } else {
        slashes_as_dashes(s.drop_last()) + if s.last() == '/' {
            seq!['-', '-']
        } else {
            seq![s.last()]
        }
    }
}

/// A model reference names a HuggingFace model in the local cache
/// (`owner/model`) rather than an Ollama model (`qwen3:0.6b`,
/// `hf.co/org/model:tag`): it holds a `/` and does not start with `hf.co/`.
pub open spec fn is_hf_model_spec(model: Seq<char>) -> bool {
    model.contains('/') && !has_prefix(model, "hf.co/"@)
}

/// Whether a model reference is served from the HuggingFace cache.
pub fn is_hf_model(model: &str) -> (r: bool)
    ensures
        r == is_hf_model_spec(model@),
{
    let m = chars_of(model);
    let slash = find_char(&m, '/');
    proof {
        lemma_first_index_of(m@, '/');
    }
    slash.is_some() && !starts_with_lit(&m, "hf.co/")
}

/// The cache directory name HuggingFace uses for a model id:
/// `owner/model` becomes `models--owner--model`.
pub fn hf_cache_dir_name(model_id: &str) -> (r: String)
    ensures
        r@ == "models--"@ + slashes_as_dashes(model_id@),
{
    let id = chars_of(model_id);
    let mut out = chars_of("models--");
    let ghost head = out@;
    let mut i: usize = 0;
    while i < id.len()
        invariant
            i <= id.len(),
            head == "models--"@,
            out@ == head + slashes_as_dashes(id@.take(i as int)),
        decreases id.len() - i,
    {
        proof {
            assert(id@.take(i + 1).drop_last() =~= id@.take(i as int));
        }
        if id[i] == '/' {
            out.push('-');
            out.push('-');
        } else {
            out.push(id[i]);
        }
        i = i + 1;
        assert(out@ =~= head + slashes_as_dashes(id@.take(i as int)));
    }
    assert(id@.take(id@.len() as int) =~= id@);
    string_of(&out)
}

/// The first candidate with the most shards.
pub open spec fn most_complete_spec(counts: Seq<usize>) -> Option<int>
    decreases counts.len(),
{
    if counts.len() == 0 {
        None
    } else {
        match most_complete_spec(counts.drop_last()) {
            None => Some(counts.len() - 1),
            Some(b) => if counts.last() > counts[b] {
                Some(counts.len() - 1)
            } else {
                Some(b)
            },
        }
    }
}

/// Among snapshot candidates with the given shard counts, the one a
/// search keeps: the first with the most shards (`None` when there is no
/// candidate).
pub fn most_complete(counts: &Vec<usize>) -> (r: Option<usize>)
    ensures
        match r {
            Some(i) => most_complete_spec(counts@) == Some(i as int),
            None => most_complete_spec(counts@) is None,
        },
{
    if counts.len() == 0 {
        return None;
    }
    let mut best: usize = 0;
    let mut i: usize = 1;
    assert(counts@.take(1).drop_last() =~= Seq::<usize>::empty());
    assert(most_complete_spec(Seq::<usize>::empty()) is None);
    while i < counts.len()
        invariant
            1 <= i <= counts.len(),
            best < i,
            most_complete_spec(counts@.take(i as int)) == Some(best as int),
        decreases counts.len() - i,
    {
        proof {
            assert(counts@.take(i + 1).drop_last() =~= counts@.take(i as int));
            assert(counts@.take(i as int)[best as int] == counts@[best as int]);
        }
        if counts[i] > counts[best] {
            best = i;
        }
        i = i + 1;
    }
    assert(counts@.take(counts@.len() as int) =~= counts@);
    Some(best)
}

/// The kept candidate has no fewer shards than any other, and more than
/// every candidate before it.
pub proof fn law_most_complete_is_first_maximum(counts: Seq<usize>)
    ensures
        most_complete_spec(counts) is None <==> counts.len() == 0,
        most_complete_spec(counts) matches Some(b) ==> {
            &&& 0 <= b < counts.len()
            &&& forall|j: int| 0 <= j < counts.len() ==> counts[j] <= counts[b]
            &&& forall|j: int| 0 <= j < b ==> counts[j] < counts[b]
        },
    decreases counts.len(),
{
    if counts.len() > 0 {
        let prev = counts.drop_last();
        law_most_complete_is_first_maximum(prev);
        assert forall|j: int| 0 <= j < prev.len() implies prev[j] == counts[j] by {}
    }
}

/// Modification time `a` is later than `b`; an unknown time is earliest.
pub open spec fn later(a: Option<u128>, b: Option<u128>) -> bool {
    match (a, b) {
        (Some(x), Some(y)) => x > y,
        (Some(_), None) => true,
        _ => false,
    }
}

/// Snapshot `i` ranks above snapshot `j`: more shards, or as many and
/// modified later.
pub open spec fn ranks_above(counts: Seq<usize>, mtimes: Seq<Option<u128>>, i: int, j: int) -> bool {
    counts[i] > counts[j] || (counts[i] == counts[j] && later(mtimes[i], mtimes[j]))
}

/// Ranking is transitive.
proof fn lemma_ranks_above_transitive(counts: Seq<usize>, mtimes: Seq<Option<u128>>, a: int, b: int, c: int)
    requires
        ranks_above(counts, mtimes, a, b),
        ranks_above(counts, mtimes, b, c),
    ensures
        ranks_above(counts, mtimes, a, c),
{
}

/// The best snapshot of one model directory: the most shards, the newest
/// among those, the first found among those; `None` for no snapshot.
/// `counts[i]` and `mtimes[i]` are snapshot `i`'s shard count and
/// modification time.
pub fn best_snapshot(counts: &Vec<usize>, mtimes: &Vec<Option<u128>>) -> (r: Option<usize>)
    requires
        counts@.len() == mtimes@.len(),
    ensures
        r is None <==> counts@.len() == 0,
        r matches Some(b) ==> {
            &&& (b as int) < counts@.len()
            &&& forall|j: int| 0 <= j < counts@.len() ==> !ranks_above(counts@, mtimes@, j, b as int)
            &&& forall|j: int| 0 <= j < b ==> ranks_above(counts@, mtimes@, b as int, j)
        },
{
    if counts.len() == 0 {
        return None;
    }
    let mut best: usize = 0;
    let mut i: usize = 1;
    while i < counts.len()
        invariant
            1 <= i <= counts@.len(),
            counts@.len() == mtimes@.len(),
            best < i,
            forall|j: int| 0 <= j < i ==> !ranks_above(counts@, mtimes@, j, best as int),
            forall|j: int| 0 <= j < best ==> ranks_above(counts@, mtimes@, best as int, j),
        decreases counts.len() - i,
    {
        let newer = match (mtimes[i], mtimes[best]) {
            (Some(x), Some(y)) => x > y,
            (Some(_), None) => true,
            _ => false,
        };
        if counts[i] > counts[best] || (counts[i] == counts[best] && newer) {
            let old_best = best;
            best = i;
            assert forall|j: int| 0 <= j < best implies ranks_above(counts@, mtimes@, best as int, j) by {
                assert(!ranks_above(counts@, mtimes@, j, old_best as int));
            }
            assert forall|j: int| 0 <= j < i + 1 implies !ranks_above(counts@, mtimes@, j, best as int) by {
                if j < i && ranks_above(counts@, mtimes@, j, best as int) {
                    lemma_ranks_above_transitive(counts@, mtimes@, j, best as int, old_best as int);
                }
            }
        }
        i = i + 1;
    }
    Some(best)
}

/// Where the files of commit `sha` of a model are kept:
/// `{cache_root}/models--{owner}--{model}/snapshots/{sha}`.
pub open spec fn snapshot_dir_spec(cache_root: Seq<char>, model_id: Seq<char>, sha: Seq<char>) -> Seq<char> {
    crate::config::join_path_spec(
        crate::config::join_path_spec(
            crate::config::join_path_spec(cache_root, "models--"@ + slashes_as_dashes(model_id)),
            "snapshots"@,
        ),
        sha,
    )
}

/// The snapshot directory of commit `sha` of a model under a cache root.
pub fn snapshot_dir(cache_root: &str, model_id: &str, sha: &str) -> (r: String)
    ensures
        r@ == snapshot_dir_spec(cache_root@, model_id@, sha@),
{
    let name = hf_cache_dir_name(model_id);
    let model_dir = crate::config::join_path(cache_root, name.as_str());
    let snaps = crate::config::join_path(model_dir.as_str(), "snapshots");
    crate::config::join_path(snaps.as_str(), sha)
}

/// The refusal of a download that selects no file.
pub open spec fn no_files_message_spec(model_id: Seq<char>, start: nat, end: nat) -> Seq<char> {
    "No files selected for model '"@ + model_id + "' blocks ["@ + dec_spec(start) + ", "@ + dec_spec(
        end,
    ) + "). This model may not be in SafeTensors format."@
}

/// A download needs at least one file: an empty selection is refused.
pub fn require_files(files: &Vec<String>, model_id: &str, start_block: usize, end_block: usize) -> (r:
    Result<(), String>)
    ensures
        files@.len() > 0 ==> r is Ok,
        files@.len() == 0 ==> (r matches Err(m) && m@ == no_files_message_spec(
            model_id@,
            start_block as nat,
            end_block as nat,
        )),
{
    if files.len() > 0 {
        return Ok(());
    }
    let mut m: Vec<char> = Vec::new();
    crate::fmt::push_lit(&mut m, "No files selected for model '");
    let id = chars_of(model_id);
    crate::fmt::push_all(&mut m, &id);
    crate::fmt::push_lit(&mut m, "' blocks [");
    crate::fmt::push_dec(&mut m, start_block as u64);
    crate::fmt::push_lit(&mut m, ", ");
    crate::fmt::push_dec(&mut m, end_block as u64);
    crate::fmt::push_lit(&mut m, "). This model may not be in SafeTensors format.");
    Err(string_of(&m))
}

/// The positions, in order, of the selected files not already cached;
/// `present[i]` tells whether file `i` is.
pub fn files_to_fetch(files: &Vec<String>, present: &Vec<bool>) -> (r: Vec<usize>)
    requires
        present@.len() == files@.len(),
    ensures
        forall|k: int| 0 <= k < r@.len() ==> (r@[k] as int) < files@.len() && !present@[r@[k] as int],
        forall|i: int| 0 <= i < files@.len() && !present@[i] ==> r@.contains(i as usize),
        forall|k: int, m: int| 0 <= k < m < r@.len() ==> r@[k] < r@[m],
{
    let mut r: Vec<usize> = Vec::new();
    let mut i: usize = 0;
    while i < files.len()
        invariant
            i <= files.len(),
            present@.len() == files@.len(),
            forall|k: int| 0 <= k < r@.len() ==> (r@[k] as int) < i && !present@[r@[k] as int],
            forall|j: int| 0 <= j < i && !present@[j] ==> r@.contains(j as usize),
            forall|k: int, m: int| 0 <= k < m < r@.len() ==> r@[k] < r@[m],
        decreases files.len() - i,
    {
        if !present[i] {
            let ghost before = r@;
            r.push(i);
            assert forall|j: int| 0 <= j < i + 1 && !present@[j] implies r@.contains(j as usize) by {
                if j < i {
                    let k = choose|k: int| 0 <= k < before.len() && before[k] == j as usize;
                    assert(r@[k] == before[k]);
                } else {
                    assert(r@[before.len() as int] == i);
                }
            }
        }
        i = i + 1;
    }
    r
}

/// The text listing the cache roots searched, one `  • {root}` per line.
pub open spec fn searched_lines(roots: Seq<Seq<char>>) -> Seq<char>
    decreases roots.len(),
{
    if roots.len() == 0 {
        Seq::empty()
    } else if roots.len() == 1 {
        "  • "@ + roots[0]
    } else {
        searched_lines(roots.drop_last()) + "\n  • "@ + roots.last()
    }
}

/// The error for a model that no cache root holds.
pub open spec fn not_cached_message_spec(model_id: Seq<char>, roots: Seq<Seq<char>>) -> Seq<char> {
    "Model '"@ + model_id + "' not found in local cache.\nSearched:\n"@ + searched_lines(roots)
        + "\nTo download: kwaainet shard download "@ + model_id
}

/// The error for a model that none of the cache roots `roots` holds.
pub fn not_cached_message(model_id: &str, roots: &Vec<String>) -> (r: String)
    ensures
        r@ == not_cached_message_spec(model_id@, strings_view(roots@)),
{
    let mut m: Vec<char> = Vec::new();
    crate::fmt::push_lit(&mut m, "Model '");
    let id = chars_of(model_id);
    crate::fmt::push_all(&mut m, &id);
    crate::fmt::push_lit(&mut m, "' not found in local cache.\nSearched:\n");
    let ghost head = m@;
    let mut i: usize = 0;
    while i < roots.len()
        invariant
            i <= roots.len(),
            m@ == head + searched_lines(strings_view(roots@).take(i as int)),
        decreases roots.len() - i,
    {
        let ghost prev = strings_view(roots@).take(i as int);
        assert(strings_view(roots@).take(i as int + 1).drop_last() =~= prev);
        if i > 0 {
            crate::fmt::push_lit(&mut m, "\n");
        }
        crate::fmt::push_lit(&mut m, "  • ");
        let c = chars_of(roots[i].as_str());
        crate::fmt::push_all(&mut m, &c);
        proof {
            reveal_strlit("\n");
            reveal_strlit("  • ");
            reveal_strlit("\n  • ");
            let t = strings_view(roots@).take(i as int + 1);
            assert(t.last() == roots@[i as int]@);
            if i == 0 {
                assert(m@ =~= head + searched_lines(t));
            } else {
                assert("\n"@ + "  • "@ =~= "\n  • "@);
                assert(m@ =~= head + searched_lines(t));
            }
        }
        i = i + 1;
    }
    assert(strings_view(roots@).take(roots.len() as int) =~= strings_view(roots@));
    crate::fmt::push_lit(&mut m, "\nTo download: kwaainet shard download ");
    crate::fmt::push_all(&mut m, &id);
    proof {
        assert(m@ =~= not_cached_message_spec(model_id@, strings_view(roots@)));
    }
    string_of(&m)
}

} // verus!
