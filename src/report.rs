use vstd::prelude::*;
use vstd::string::StringSliceAdditionalSpecFns;
use vstd::utf8::encode_utf8;

use crate::config::Config;
use crate::select::{select, selection, NEWLINE};

verus! {

pub const SPACE: u8 = 32;
pub const COLON: u8 = 58;
pub const LESS: u8 = 60;
pub const EQUALS: u8 = 61;
pub const GREATER: u8 = 62;

/// The banner naming a source; every banner after the first source's is
/// set apart by a blank line.
pub open spec fn header_text(name: Seq<char>, index: int) -> Seq<u8> {
    (if index > 0 { seq![NEWLINE] } else { Seq::<u8>::empty() }) + banner(name)
}

/// The line `==> name <==`.
pub open spec fn banner(name: Seq<char>) -> Seq<u8> {
    seq![EQUALS, EQUALS, GREATER, SPACE] + encode_utf8(name) + seq![SPACE, LESS, EQUALS, EQUALS, NEWLINE]
}

/// Banners are printed only where they are wanted and there is more than
/// one source.
pub open spec fn shows_headers(config: Config) -> bool {
    config.headers && config.files@.len() > 1
}

/// What is printed before the source at `index`.
pub open spec fn lead_text(config: Config, index: int) -> Seq<u8> {
    if shows_headers(config) {
        header_text(config.files@[index]@, index)
    } else {
        Seq::<u8>::empty()
    }
}

/// What is printed for the source at `index` that holds `content`.
pub open spec fn source_text(config: Config, index: int, content: Seq<u8>) -> Seq<u8> {
    lead_text(config, index) + selection(content, config.mode)
}

/// What is printed for the first `n` sources, where `contents[i]` is what
/// source `i` holds, or `None` where it could not be opened.
pub open spec fn run_text(config: Config, contents: Seq<Option<Vec<u8>>>, n: nat) -> Seq<u8>
    decreases n,
{
    if n == 0 {
        Seq::<u8>::empty()
    } else {
        run_text(config, contents, (n - 1) as nat) + match contents[n - 1] {
            Some(c) => source_text(config, n - 1, c@),
            None => Seq::<u8>::empty(),
        }
    }
}

/// The message reported for a source that could not be opened.
pub open spec fn open_error_text(name: Seq<char>, message: Seq<char>) -> Seq<u8> {
    encode_utf8(name) + seq![COLON, SPACE] + encode_utf8(message) + seq![NEWLINE]
}

fn append(out: &mut Vec<u8>, b: &[u8])
    ensures
        final(out)@ == old(out)@ + b@,
{
    let mut i: usize = 0;
    while i < b.len()
        invariant
            i <= b@.len(),
            out@ == old(out)@ + b@.take(i as int),
        decreases b@.len() - i,
    {
        out.push(b[i]);
        i = i + 1;
        assert(out@ =~= old(out)@ + b@.take(i as int));
    }
    assert(b@.take(b@.len() as int) =~= b@);
}

/// The banner for the source `name` at `index`.
pub fn header(name: &String, index: usize) -> (r: Vec<u8>)
    ensures
        r@ == header_text(name@, index as int),
{
    let mut r: Vec<u8> = Vec::new();
    if index > 0 {
        r.push(NEWLINE);
    }
    r.push(EQUALS);
    r.push(EQUALS);
    r.push(GREATER);
    r.push(SPACE);
    append(&mut r, name.as_str().as_bytes());
    r.push(SPACE);
    r.push(LESS);
    r.push(EQUALS);
    r.push(EQUALS);
    r.push(NEWLINE);
    assert(r@ =~= header_text(name@, index as int));
    r
}

/// What is printed before the source at `index`: its banner where one is
/// shown, else nothing.
pub fn lead(config: &Config, index: usize) -> (r: Vec<u8>)
    requires
        index < config.files@.len(),
    ensures
        r@ == lead_text(*config, index as int),
{
    if config.headers && config.files.len() > 1 {
        header(&config.files[index], index)
    } else {
        Vec::new()
    }
}

/// What is printed for the source at `index` that holds `content`: its
/// banner where one is shown, then what the mode selects.
pub fn source_output(config: &Config, index: usize, content: &Vec<u8>) -> (r: Vec<u8>)
    requires
        index < config.files@.len(),
    ensures
        r@ == source_text(*config, index as int, content@),
{
    let mut r = lead(config, index);
    let sel = select(content, config.mode);
    append(&mut r, sel.as_slice());
    r
}

/// Everything printed for a run over the sources of `config`, where
/// `contents[i]` is what source `i` holds, or `None` where it could not be
/// opened: such a source prints nothing.
pub fn render(config: &Config, contents: &Vec<Option<Vec<u8>>>) -> (r: Vec<u8>)
    requires
        contents@.len() == config.files@.len(),
    ensures
        r@ == run_text(*config, contents@, contents@.len()),
{
    let mut r: Vec<u8> = Vec::new();
    let mut i: usize = 0;
    while i < contents.len()
        invariant
            i <= contents@.len(),
            contents@.len() == config.files@.len(),
            r@ == run_text(*config, contents@, i as nat),
        decreases contents@.len() - i,
    {
        match &contents[i] {
            Some(c) => {
                let out = source_output(config, i, c);
                append(&mut r, out.as_slice());
            },
            None => {},
        }
        i = i + 1;
        assert(r@ =~= run_text(*config, contents@, i as nat));
    }
    r
}

/// The line reported for the source `name` that could not be opened, with
/// the reason given.
pub fn open_error_line(name: &String, message: &String) -> (r: Vec<u8>)
    ensures
        r@ == open_error_text(name@, message@),
{
    let mut r: Vec<u8> = Vec::new();
    append(&mut r, name.as_str().as_bytes());
    r.push(COLON);
    r.push(SPACE);
    append(&mut r, message.as_str().as_bytes());
    r.push(NEWLINE);
    assert(r@ =~= open_error_text(name@, message@));
    r
}

/// With two sources that both open and banners wanted, the output is the
/// first banner, the first selection, a blank line, the second banner and
/// the second selection.
pub proof fn two_sources_output(config: Config, contents: Seq<Option<Vec<u8>>>)
    requires
        config.files@.len() == 2,
        config.headers,
        contents.len() == 2,
        contents[0] is Some,
        contents[1] is Some,
    ensures
        run_text(config, contents, 2) == banner(config.files@[0]@)
            + selection(contents[0]->Some_0@, config.mode)
            + seq![NEWLINE]
            + banner(config.files@[1]@)
            + selection(contents[1]->Some_0@, config.mode),
{
    assert(run_text(config, contents, 0) == Seq::<u8>::empty());
    let a = selection(contents[0]->Some_0@, config.mode);
    let b = selection(contents[1]->Some_0@, config.mode);
    assert(run_text(config, contents, 1) =~= banner(config.files@[0]@) + a);
    assert(run_text(config, contents, 2) =~= banner(config.files@[0]@) + a + seq![NEWLINE]
        + banner(config.files@[1]@) + b);
}

/// With a single source no banner is printed, whether or not banners are
/// wanted: the output is what the mode selects.
pub proof fn single_source_output(config: Config, contents: Seq<Option<Vec<u8>>>)
    requires
        config.files@.len() == 1,
        contents.len() == 1,
    ensures
        run_text(config, contents, 1) == match contents[0] {
            Some(c) => selection(c@, config.mode),
            None => Seq::<u8>::empty(),
        },
{
    assert(run_text(config, contents, 0) == Seq::<u8>::empty());
    assert(run_text(config, contents, 1) =~= match contents[0] {
        Some(c) => selection(c@, config.mode),
        None => Seq::<u8>::empty(),
    });
}

/// A source that cannot be opened adds nothing to the output.
pub proof fn failed_source_prints_nothing(config: Config, contents: Seq<Option<Vec<u8>>>, i: nat)
    requires
        i < contents.len(),
        contents[i as int] is None,
    ensures
        run_text(config, contents, i + 1) == run_text(config, contents, i),
{
    assert(run_text(config, contents, i + 1) =~= run_text(config, contents, i));
}

/// Where the first of two sources cannot be opened, the output is the
/// second source's, banner included where banners are shown.
pub proof fn failed_then_opened_output(config: Config, contents: Seq<Option<Vec<u8>>>)
    requires
        config.files@.len() == 2,
        contents.len() == 2,
        contents[0] is None,
        contents[1] is Some,
    ensures
        run_text(config, contents, 2) == (if config.headers {
            seq![NEWLINE] + banner(config.files@[1]@)
        } else {
            Seq::<u8>::empty()
        }) + selection(contents[1]->Some_0@, config.mode),
{
    assert(run_text(config, contents, 0) == Seq::<u8>::empty());
    assert(run_text(config, contents, 1) =~= Seq::<u8>::empty());
    assert(run_text(config, contents, 2) =~= (if config.headers {
        seq![NEWLINE] + banner(config.files@[1]@)
    } else {
        Seq::<u8>::empty()
    }) + selection(contents[1]->Some_0@, config.mode));
}

} // verus!
