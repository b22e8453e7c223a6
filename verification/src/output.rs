//! Where captures are saved: the file names of a batch and the image format.

use crate::address::{PageUrl, UrlModel};
use crate::image;
use crate::image::Format;
use crate::outside::{join_path, path_extension};
use crate::paths;
use crate::text;
use crate::text::{chars_of, decimal_text, trim, Trim};
use vstd::prelude::*;
use vstd::string::*;

verus! {

/// A path that the user gave for the output, and the extension of its file name.
#[derive(Debug)]
pub struct OutputPath {
    pub text: String,
    pub extension: Option<String>,
}

impl OutputPath {
    /// A path with the extension that the platform reads off it.
    pub fn new(path: &str) -> (r: OutputPath)
        ensures
            r.text@ == path@,
            paths::may_end_in(path@, text::text_option(r.extension)),
    {
        OutputPath { text: path.to_owned(), extension: path_extension(path) }
    }
}

/// Whether a character may stand in a derived file name as it is.
pub open spec fn plain(c: char) -> bool {
    ||| '0' <= c <= '9'
    ||| 'A' <= c <= 'Z'
    ||| 'a' <= c <= 'z'
    ||| c == '.'
    ||| c == '-'
    ||| c == '_'
}

/// A character of a derived file name: a dash stands for all that is not plain.
pub open spec fn tamed(c: char) -> char {
    if plain(c) {
        c
    } else {
        '-'
    }
}

/// The file name that a URL gives, without an extension: the host, then the path.
pub open spec fn derived(url: UrlModel) -> Seq<char> {
    let host = match url.host {
        Some(host) => host,
        None => "page"@,
    };
    let path = text::trimmed(url.path, Trim::Slash);
    let name = if path.len() == 0 {
        host
    } else {
        host + "-"@ + path
    };
    name.map_values(|c: char| tamed(c))
}

/// `https://example.com/pricing/` gives `example.com-pricing`.
pub fn derived_name(url: &PageUrl) -> (r: String)
    ensures
        r@ == derived(url@),
        url@.wf() ==> r@.len() > 0,
{
    proof {
        if url@.wf() {
            law_derived_names_are_not_empty(url@);
        }
    }
    let mut name = match &url.host {
        Some(host) => host.clone(),
        None => "page".to_owned(),
    };
    let path = trim(url.path.as_str(), Trim::Slash);
    if !path.as_str().is_empty() {
        name.append("-");
        name.append(path.as_str());
    }
    let chars = chars_of(name.as_str());
    let mut out = String::new();
    let mut i: usize = 0;
    while i < chars.len()
        invariant
            chars@ == name@,
            i <= chars@.len(),
            out@ == name@.take(i as int).map_values(|c: char| tamed(c)),
        decreases chars@.len() - i,
    {
        let c = chars[i];
        assert(name@.take(i + 1).map_values(|c: char| tamed(c)) == name@.take(i as int).map_values(
            |c: char| tamed(c),
        ).push(tamed(c)));
        if ('0' <= c && c <= '9') || ('A' <= c && c <= 'Z') || ('a' <= c && c <= 'z') || c == '.'
            || c == '-' || c == '_' {
            out.push(c);
        } else {
            out.push('-');
        }
        i = i + 1;
    }
    assert(name@.take(i as int) == name@);
    out
}

/// How often `name` occurs in `names`.
pub open spec fn occurrences(names: Seq<Seq<char>>, name: Seq<char>) -> nat
    decreases names.len(),
{
    if names.len() == 0 {
        0
    } else {
        occurrences(names.drop_last(), name) + if names.last() == name {
            1nat
        } else {
            0nat
        }
    }
}

/// Which of the equal names in `names` the one at place `i` is, counted from 1.
pub open spec fn rank(names: Seq<Seq<char>>, i: int) -> nat {
    occurrences(names.take(i), names[i]) + 1
}

/// A name with a number behind it, from the second on.
pub open spec fn numbered(name: Seq<char>, number: nat) -> Seq<char> {
    if number > 1 {
        name + "-"@ + text::decimal(number)
    } else {
        name
    }
}

/// The first number from `k` on under which a name is not taken.  Taken names can use up no more
/// numbers than there are of them, so the search goes no further.
pub open spec fn free_number(name: Seq<char>, taken: Seq<Seq<char>>, k: nat) -> nat
    decreases taken.len() + 1 - k,
{
    if k <= taken.len() && taken.contains(numbered(name, k)) {
        free_number(name, taken, k + 1)
    } else {
        k
    }
}

/// The names that a batch of URLs gives.
pub open spec fn derived_names(urls: Seq<PageUrl>) -> Seq<Seq<char>> {
    urls.map_values(|url: PageUrl| derived(url@))
}

/// The names of a batch in order: each as it is where no earlier one has it, else with the first
/// number behind it under which no earlier one has it.
pub open spec fn numbered_names(names: Seq<Seq<char>>) -> Seq<Seq<char>>
    decreases names.len(),
{
    if names.len() == 0 {
        seq![]
    } else {
        let taken = numbered_names(names.drop_last());
        taken.push(numbered(names.last(), free_number(names.last(), taken, 1)))
    }
}

/// The file that a capture is saved in.
#[derive(Debug)]
pub enum Placement {
    /// The file that the user gave.
    Given,
    /// A file of this name in the output directory.
    Named(String),
}

/// A page to capture and where the capture goes.
#[derive(Debug)]
pub struct Target {
    pub url: String,
    pub file: Placement,
    /// The path of that file.
    pub path: String,
}

/// What a batch captures, and in which format.
#[derive(Debug)]
pub struct Outputs {
    pub targets: Vec<Target>,
    pub format: Format,
}

/// The format of the one file that the user gave: a single page and a known extension.
pub open spec fn given_format(pages: nat, out: Option<OutputPath>) -> Option<Format> {
    match out {
        Some(path) => match path.extension {
            Some(extension) => if pages == 1 {
                image::format_of(extension@)
            } else {
                None
            },
            None => None,
        },
        None => None,
    }
}

/// The format of files that the program names.
pub open spec fn default_format(flag: Option<Format>) -> Format {
    match flag {
        Some(format) => format,
        None => Format::Png,
    }
}

/// The directory that named files go to: the path that the user gave, or the working directory.
pub open spec fn directory(out: Option<OutputPath>) -> Seq<char> {
    match out {
        Some(path) => path.text@,
        None => "."@,
    }
}

/// What resolving the outputs of a batch comes to.
pub open spec fn resolved(
    urls: Seq<PageUrl>,
    out: Option<OutputPath>,
    flag: Option<Format>,
    outputs: Outputs,
) -> bool {
    &&& outputs.targets@.len() == urls.len()
    &&& forall|i: int| 0 <= i < urls.len() ==> (#[trigger] outputs.targets@[i]).url@ == urls[i].text@
    &&& match given_format(urls.len(), out) {
        Some(format) => {
            &&& outputs.format == format
            &&& outputs.targets@[0].file is Given
            &&& outputs.targets@[0].path@ == directory(out)
        },
        None => {
            &&& outputs.format == default_format(flag)
            &&& forall|i: int|
                0 <= i < urls.len() ==> ((#[trigger] outputs.targets@[i]).file matches Placement::Named(
                    name,
                ) && name@ == numbered_names(derived_names(urls))[i] + "."@
                    + outputs.format.extension() && paths::may_join(
                    directory(out),
                    name@,
                    outputs.targets@[i].path@,
                ))
        },
    }
}

/// Whether no two files that the program names are the same.
pub open spec fn distinct_files(targets: Seq<Target>) -> bool {
    forall|i: int, j: int|
        0 <= i < j < targets.len() ==> match (
            (#[trigger] targets[i]).file,
            (#[trigger] targets[j]).file,
        ) {
            (Placement::Named(a), Placement::Named(b)) => a@ != b@,
            _ => true,
        }
}

/// Whether no two captures go to the same path.
pub open spec fn distinct_paths(targets: Seq<Target>) -> bool {
    forall|i: int, j: int|
        0 <= i < j < targets.len() ==> (#[trigger] targets[i]).path@ != (
        #[trigger] targets[j]).path@
}

/// An optional path as the contracts speak of it.
pub open spec fn out_option(out: Option<&OutputPath>) -> Option<OutputPath> {
    match out {
        Some(path) => Some(*path),
        None => None,
    }
}

/// Whether a name is among `taken`.
fn is_taken(name: &String, taken: &Vec<String>) -> (r: bool)
    ensures
        r == text::texts(taken@).contains(name@),
{
    let ghost all = text::texts(taken@);
    let mut i: usize = 0;
    while i < taken.len()
        invariant
            all == text::texts(taken@),
            i <= taken@.len(),
            forall|k: int| 0 <= k < i ==> all[k] != name@,
        decreases taken@.len() - i,
    {
        assert(all[i as int] == taken@[i as int]@);
        if taken[i] == *name {
            return true;
        }
        i = i + 1;
    }
    false
}

/// A name that is not taken: as it is, or with a number behind it.
fn free_name(base: &String, taken: &Vec<String>) -> (r: String)
    ensures
        r@ == numbered(base@, free_number(base@, text::texts(taken@), 1)),
{
    let ghost all = text::texts(taken@);
    let mut number: u128 = 1;
    let mut name = base.clone();
    while number <= taken.len() as u128 && is_taken(&name, taken)
        invariant
            all == text::texts(taken@),
            1 <= number <= taken@.len() + 1,
            name@ == numbered(base@, number as nat),
            free_number(base@, all, number as nat) == free_number(base@, all, 1),
        decreases taken@.len() + 1 - number,
    {
        number = number + 1;
        name = base.clone();
        name.append("-");
        name.append(decimal_text(number).as_str());
    }
    name
}

/// Pairs each page with its file and settles the format.  A single page and a path with a known
/// extension give that exact file, whose extension settles the format.  All else gives derived
/// names, each its own, in the format of the flag.
pub fn resolve_outputs(
    urls: &Vec<PageUrl>,
    out: Option<&OutputPath>,
    flag_format: Option<Format>,
) -> (r: Outputs)
    ensures
        resolved(urls@, out_option(out), flag_format, r),
        distinct_files(r.targets@),
        !paths::verbatim(directory(out_option(out))) ==> distinct_paths(r.targets@),
{
    if urls.len() == 1 {
        match out {
            Some(path) => match &path.extension {
                Some(extension) => match Format::from_ext(extension.as_str()) {
                    Some(format) => {
                        let mut targets: Vec<Target> = Vec::new();
                        targets.push(
                            Target {
                                url: urls[0].text.clone(),
                                file: Placement::Given,
                                path: path.text.clone(),
                            },
                        );
                        return Outputs { targets, format };
                    },
                    None => {},
                },
                None => {},
            },
            None => {},
        }
    }
    let format = match flag_format {
        Some(format) => format,
        None => Format::Png,
    };
    let into = match out {
        Some(path) => path.text.as_str(),
        None => ".",
    };
    let ghost bases = derived_names(urls@);
    let mut names: Vec<String> = Vec::new();
    let mut targets: Vec<Target> = Vec::new();
    let mut i: usize = 0;
    assert(text::texts(names@) =~= numbered_names(bases.take(0)));
    while i < urls.len()
        invariant
            bases == derived_names(urls@),
            into@ == directory(out_option(out)),
            i <= urls@.len(),
            targets@.len() == i,
            text::texts(names@) == numbered_names(bases.take(i as int)),
            forall|j: int|
                0 <= j < i ==> (#[trigger] targets@[j]).url@ == urls@[j].text@ && (
                targets@[j].file matches Placement::Named(name) && name@ == numbered_names(bases)[j]
                    + "."@ + format.extension() && paths::may_join(
                    into@,
                    name@,
                    targets@[j].path@,
                )),
        decreases urls@.len() - i,
    {
        let base = derived_name(&urls[i]);
        let name = free_name(&base, &names);
        let ghost taken = text::texts(names@);
        proof {
            assert(bases.take(i + 1).drop_last() == bases.take(i as int));
            assert(bases.take(i + 1).last() == base@);
            lemma_names_stay(bases, i as int);
            lemma_names_stay(bases, i + 1);
            assert(numbered_names(bases).take(i + 1)[i as int] == numbered_names(bases)[i as int]);
            assert(name@ == numbered_names(bases)[i as int]);
        }
        let mut file = name.clone();
        file.append(".");
        file.append(format.ext());
        let path = join_path(into, file.as_str());
        targets.push(Target { url: urls[i].text.clone(), file: Placement::Named(file), path });
        names.push(name);
        assert(text::texts(names@) == taken.push(name@));
        i = i + 1;
    }
    proof {
        let suffix = "."@ + format.extension();
        assert forall|i: int, j: int| 0 <= i < j < targets@.len() implies match (
            (#[trigger] targets@[i]).file,
            (#[trigger] targets@[j]).file,
        ) {
            (Placement::Named(a), Placement::Named(b)) => a@ != b@,
            _ => true,
        } by {
            law_batch_names_are_distinct(bases, suffix, i, j);
            let a = numbered_names(bases)[i];
            let b = numbered_names(bases)[j];
            assert(a + "."@ + format.extension() == a + suffix);
            assert(b + "."@ + format.extension() == b + suffix);
        }
        if !paths::verbatim(into@) {
            assert forall|i: int, j: int| 0 <= i < j < targets@.len() implies (
            #[trigger] targets@[i]).path@ != (#[trigger] targets@[j]).path@ by {
                law_batch_files_are_names(urls@, format, i);
                law_batch_files_are_names(urls@, format, j);
                paths::law_joined_files_are_distinct(
                    into@,
                    targets@[i].file->Named_0@,
                    targets@[j].file->Named_0@,
                    targets@[i].path@,
                    targets@[j].path@,
                );
            }
        }
    }
    Outputs { targets, format }
}

/// A derived name is made of plain characters only, so it names a file in the directory itself.
pub proof fn law_derived_names_are_plain(url: UrlModel)
    ensures
        forall|i: int| 0 <= i < derived(url).len() ==> plain(#[trigger] derived(url)[i]),
        !derived(url).contains('/'),
{
    assert(forall|i: int| 0 <= i < derived(url).len() ==> plain(#[trigger] derived(url)[i]));
}

/// A derived name says something.
pub proof fn law_derived_names_are_not_empty(url: UrlModel)
    requires
        url.wf(),
    ensures
        derived(url).len() > 0,
{
    reveal_strlit("page");
    reveal_strlit("-");
}

/// Only the host and the path of a URL decide its name, and solidi around the path do not matter.
pub proof fn law_derived_names_follow_host_and_path(a: UrlModel, b: UrlModel)
    requires
        a.host == b.host,
        text::trimmed(a.path, Trim::Slash) == text::trimmed(b.path, Trim::Slash),
    ensures
        derived(a) == derived(b),
{
}

/// Two numbered names agree only where both their parts do.
proof fn lemma_numbering_is_unique(a: Seq<char>, m: nat, b: Seq<char>, n: nat)
    requires
        m > 1,
        n > 1,
        numbered(a, m) == numbered(b, n),
    ensures
        a == b,
        m == n,
{
    reveal_strlit("-");
    assert("-"@ =~= seq!['-']);
    text::law_decimal_reads_back(m);
    text::law_decimal_reads_back(n);
    text::lemma_dash_parts(a, text::decimal(m), b, text::decimal(n));
}

/// Under two numbers a name is never the same.
proof fn lemma_numbers_differ(name: Seq<char>, m: nat, n: nat)
    requires
        1 <= m < n,
    ensures
        numbered(name, m) != numbered(name, n),
{
    if m > 1 {
        if numbered(name, m) == numbered(name, n) {
            lemma_numbering_is_unique(name, m, name, n);
        }
    } else {
        reveal_strlit("-");
        assert(numbered(name, n).len() > name.len());
    }
}

/// Some number up to one more than there are taken names is free.
proof fn lemma_some_number_is_free(name: Seq<char>, taken: Seq<Seq<char>>)
    requires
        forall|m: nat| 1 <= m <= taken.len() ==> taken.contains(#[trigger] numbered(name, m)),
    ensures
        !taken.contains(numbered(name, taken.len() + 1)),
{
    let n = taken.len();
    if taken.contains(numbered(name, n + 1)) {
        let tried = Seq::new(n + 1, |i: int| numbered(name, (i + 1) as nat));
        assert forall|i: int, j: int| 0 <= i < tried.len() && 0 <= j < tried.len() && i
            != j implies tried[i] != tried[j] by {
            if i < j {
                lemma_numbers_differ(name, (i + 1) as nat, (j + 1) as nat);
            } else {
                lemma_numbers_differ(name, (j + 1) as nat, (i + 1) as nat);
            }
        }
        assert(tried.no_duplicates());
        tried.unique_seq_to_set();
        assert forall|s: Seq<char>| #[trigger] tried.to_set().contains(s) implies taken.to_set().contains(
            s,
        ) by {
            let i = choose|i: int| 0 <= i < tried.len() && tried[i] == s;
            assert(taken.contains(numbered(name, (i + 1) as nat)));
        }
        taken.lemma_cardinality_of_set();
        vstd::set_lib::lemma_len_subset(tried.to_set(), taken.to_set());
    }
}

/// What the search for a free number finds.
proof fn lemma_free_number(name: Seq<char>, taken: Seq<Seq<char>>, k: nat)
    requires
        1 <= k <= taken.len() + 1,
        forall|m: nat| 1 <= m < k ==> taken.contains(#[trigger] numbered(name, m)),
    ensures
        ({
            let free = free_number(name, taken, k);
            &&& free >= k
            &&& !taken.contains(numbered(name, free))
            &&& forall|m: nat| 1 <= m < free ==> taken.contains(#[trigger] numbered(name, m))
        }),
    decreases taken.len() + 1 - k,
{
    if k > taken.len() {
        lemma_some_number_is_free(name, taken);
    } else if taken.contains(numbered(name, k)) {
        lemma_free_number(name, taken, k + 1);
    }
}

/// The names of a batch do not depend on what comes after them.
proof fn lemma_names_stay(names: Seq<Seq<char>>, n: int)
    requires
        0 <= n <= names.len(),
    ensures
        numbered_names(names).len() == names.len(),
        numbered_names(names).take(n) == numbered_names(names.take(n)),
    decreases names.len(),
{
    if n == names.len() {
        assert(names.take(n) == names);
    }
    if names.len() > 0 {
        let shorter = names.drop_last();
        if n < names.len() {
            lemma_names_stay(shorter, n);
            assert(shorter.take(n) == names.take(n));
            assert(numbered_names(names).take(n) == numbered_names(shorter).take(n));
        } else {
            lemma_names_stay(shorter, n - 1);
            assert(numbered_names(names).take(n) == numbered_names(names));
        }
    }
}

/// The name at a place, given those before it.
proof fn lemma_name_at(names: Seq<Seq<char>>, i: int)
    requires
        0 <= i < names.len(),
    ensures
        numbered_names(names).len() == names.len(),
        ({
            let taken = numbered_names(names.take(i));
            &&& taken == numbered_names(names).take(i)
            &&& numbered_names(names)[i] == numbered(names[i], free_number(names[i], taken, 1))
        }),
{
    lemma_names_stay(names, i);
    lemma_names_stay(names, i + 1);
    let upto = names.take(i + 1);
    assert(upto.drop_last() == names.take(i));
    lemma_names_stay(names.take(i), i);
    assert(numbered_names(names).take(i + 1)[i] == numbered_names(names)[i]);
}

/// The files of a batch have names of their own.  All of them end in the same suffix.
pub proof fn law_batch_names_are_distinct(
    names: Seq<Seq<char>>,
    suffix: Seq<char>,
    i: int,
    j: int,
)
    requires
        0 <= i < j < names.len(),
    ensures
        numbered_names(names)[i] != numbered_names(names)[j],
        numbered_names(names)[i] + suffix != numbered_names(names)[j] + suffix,
{
    let a = numbered_names(names)[i];
    let b = numbered_names(names)[j];
    lemma_name_at(names, j);
    let taken = numbered_names(names).take(j);
    lemma_free_number(names[j], taken, 1);
    assert(taken[i] == a);
    if a + suffix == b + suffix {
        assert(a.len() == (a + suffix).len() - suffix.len());
        assert(a == (a + suffix).take(a.len() as int));
        assert(b == (b + suffix).take(b.len() as int));
    }
}

/// What is made of plain characters separates no names.
proof fn lemma_plain_text(s: Seq<char>)
    requires
        forall|i: int| 0 <= i < s.len() ==> plain(#[trigger] s[i]),
    ensures
        !s.contains('/') && !s.contains('\\') && !s.contains(':'),
{
}

/// The files of a batch are named after their pages: each name begins with the one derived from
/// the page's URL and names a file in whatever directory it is joined to.
pub proof fn law_batch_files_are_names(urls: Seq<PageUrl>, format: Format, i: int)
    requires
        0 <= i < urls.len(),
    ensures
        ({
            let base = derived(urls[i]@);
            let name = numbered_names(derived_names(urls))[i];
            &&& base.len() <= name.len() && name.take(base.len() as int) == base
            &&& paths::is_name(name + "."@ + format.extension())
        }),
{
    let names = derived_names(urls);
    let base = derived(urls[i]@);
    lemma_name_at(names, i);
    let k = free_number(base, numbered_names(names.take(i)), 1);
    let name = numbered_names(names)[i];
    assert(name == numbered(base, k));
    law_derived_names_are_plain(urls[i]@);
    text::law_decimal_reads_back(k);
    reveal_strlit("-");
    reveal_strlit(".");
    reveal_strlit("png");
    reveal_strlit("jpg");
    reveal_strlit("webp");
    assert(name.take(base.len() as int) =~= base);
    let digits = text::decimal(k);
    assert forall|j: int| 0 <= j < name.len() implies plain(#[trigger] name[j]) by {
        if j < base.len() {
            assert(name[j] == base[j]);
        } else if j > base.len() {
            assert(name[j] == digits[j - base.len() - 1]);
            assert(text::is_digit(digits[j - base.len() - 1]));
        }
    }
    let extension = format.extension();
    let file = name + "."@ + extension;
    assert forall|j: int| 0 <= j < extension.len() implies plain(#[trigger] extension[j]) by {
    }
    assert forall|j: int| 0 <= j < file.len() implies plain(#[trigger] file[j]) by {
        if j < name.len() {
            assert(file[j] == name[j]);
        } else if j > name.len() {
            assert(file[j] == extension[j - name.len() - 1]);
        }
    }
    lemma_plain_text(file);
    assert(file.len() >= 4);
}

/// Whether `longer` is `name` with a number behind it.
pub open spec fn numbers(longer: Seq<char>, name: Seq<char>) -> bool {
    exists|m: nat| m > 1 && longer == #[trigger] numbered(name, m)
}

/// Whether a name keeps clear of all others in a batch: none is the other with a number behind it.
pub open spec fn keeps_clear(names: Seq<Seq<char>>, name: Seq<char>) -> bool {
    forall|k: int|
        0 <= k < names.len() ==> !numbers(#[trigger] names[k], name) && !numbers(name, names[k])
}

/// A name that keeps clear is taken under as many numbers as it has occurred.
proof fn lemma_numbers_taken(names: Seq<Seq<char>>, name: Seq<char>, m: nat)
    requires
        keeps_clear(names, name),
        m >= 1,
    ensures
        numbered_names(names).contains(numbered(name, m)) <==> m <= occurrences(names, name),
    decreases names.len(),
{
    if names.len() > 0 {
        let shorter = names.drop_last();
        let x = names.last();
        let taken = numbered_names(shorter);
        let count = occurrences(shorter, name);
        assert(names[names.len() - 1] == x);
        assert forall|k: int| 0 <= k < shorter.len() implies !numbers(
            #[trigger] shorter[k],
            name,
        ) && !numbers(name, shorter[k]) by {
            assert(shorter[k] == names[k]);
        }
        lemma_names_stay(shorter, 0);
        lemma_free_number(x, taken, 1);
        let free = free_number(x, taken, 1);
        let new = numbered(x, free);
        assert(numbered_names(names) == taken.push(new));
        assert(taken.push(new).contains(numbered(name, m)) <==> taken.contains(numbered(name, m))
            || new == numbered(name, m)) by {
            assert(taken.push(new)[taken.len() as int] == new);
            if taken.contains(numbered(name, m)) {
                let i = choose|i: int| 0 <= i < taken.len() && taken[i] == numbered(name, m);
                assert(taken.push(new)[i] == numbered(name, m));
            }
        }
        lemma_numbers_taken(shorter, name, m);
        if x == name {
            lemma_numbers_taken(shorter, name, free);
            if free > 1 {
                lemma_numbers_taken(shorter, name, (free - 1) as nat);
                assert(taken.contains(numbered(name, (free - 1) as nat)));
            }
            assert(free == count + 1);
            if m < free {
                lemma_numbers_differ(name, m, free);
            } else if free < m {
                lemma_numbers_differ(name, free, m);
            }
        } else if new == numbered(name, m) {
            if free > 1 && m > 1 {
                lemma_numbering_is_unique(x, free, name, m);
            } else if m > 1 {
                assert(numbers(x, name));
            } else if free > 1 {
                assert(numbers(name, x));
            }
            assert(false);
        }
    } else {
        assert(occurrences(names, name) == 0);
    }
}

/// Where no other name is in the way, the first page of a name keeps it, the next gets `-2`, then
/// `-3`, and so on.
pub proof fn law_repeats_are_numbered_in_order(names: Seq<Seq<char>>, i: int)
    requires
        0 <= i < names.len(),
        keeps_clear(names, names[i]),
    ensures
        numbered_names(names)[i] == numbered(names[i], rank(names, i)),
{
    let before = names.take(i);
    let name = names[i];
    assert forall|k: int| 0 <= k < before.len() implies !numbers(#[trigger] before[k], name)
        && !numbers(name, before[k]) by {
        assert(before[k] == names[k]);
    }
    lemma_name_at(names, i);
    let taken = numbered_names(before);
    lemma_free_number(name, taken, 1);
    let free = free_number(name, taken, 1);
    lemma_numbers_taken(before, name, free);
    if free > 1 {
        lemma_numbers_taken(before, name, (free - 1) as nat);
        assert(taken.contains(numbered(name, (free - 1) as nat)));
    }
}

/// What becomes of a character, by its number.
proof fn lemma_tamed(c: char)
    ensures
        ({
            let n = c as nat;
            if 48 <= n <= 57 || 65 <= n <= 90 || 97 <= n <= 122 || 45 <= n <= 46 || n == 95 {
                tamed(c) == c
            } else {
                tamed(c) == '-'
            }
        }),
{
}

/// Every ASCII letter of either case, every digit, dot, dash and underscore of the host and of the
/// path stands in the derived name at its place; every other character becomes a dash.  A dash
/// separates the two, the host is `page` where there is none, and a path of solidi alone adds
/// nothing.
pub proof fn law_derived_names_keep_their_characters(url: UrlModel)
    ensures
        ({
            let host = match url.host {
                Some(host) => host,
                None => seq!['p', 'a', 'g', 'e'],
            };
            let path = text::trimmed(url.path, Trim::Slash);
            let name = derived(url);
            let n = host.len() as int;
            &&& path.len() == 0 ==> name.len() == n
            &&& path.len() > 0 ==> name.len() == n + 1 + path.len() && name[n] == '-'
            &&& forall|i: int|
                0 <= i < n ==> {
                    let c = (#[trigger] host[i]) as nat;
                    if 48 <= c <= 57 || 65 <= c <= 90 || 97 <= c <= 122 || 45 <= c <= 46 || c == 95 {
                        name[i] == host[i]
                    } else {
                        name[i] == '-'
                    }
                }
            &&& forall|i: int|
                0 <= i < path.len() ==> {
                    let c = (#[trigger] path[i]) as nat;
                    if 48 <= c <= 57 || 65 <= c <= 90 || 97 <= c <= 122 || 45 <= c <= 46 || c == 95 {
                        name[n + 1 + i] == path[i]
                    } else {
                        name[n + 1 + i] == '-'
                    }
                }
        }),
{
    reveal_strlit("page");
    reveal_strlit("-");
    assert("page"@ =~= seq!['p', 'a', 'g', 'e']);
    let host = match url.host {
        Some(host) => host,
        None => seq!['p', 'a', 'g', 'e'],
    };
    let path = text::trimmed(url.path, Trim::Slash);
    let name = derived(url);
    let n = host.len() as int;
    let whole = if path.len() == 0 {
        host
    } else {
        host + "-"@ + path
    };
    assert forall|i: int| 0 <= i < n implies {
        let c = (#[trigger] host[i]) as nat;
        if 48 <= c <= 57 || 65 <= c <= 90 || 97 <= c <= 122 || 45 <= c <= 46 || c == 95 {
            name[i] == host[i]
        } else {
            name[i] == '-'
        }
    } by {
        assert(whole[i] == host[i]);
        lemma_tamed(host[i]);
    }
    assert forall|i: int| 0 <= i < path.len() implies {
        let c = (#[trigger] path[i]) as nat;
        if 48 <= c <= 57 || 65 <= c <= 90 || 97 <= c <= 122 || 45 <= c <= 46 || c == 95 {
            name[n + 1 + i] == path[i]
        } else {
            name[n + 1 + i] == '-'
        }
    } by {
        assert(whole[n + 1 + i] == path[i]);
        lemma_tamed(path[i]);
    }
    if path.len() > 0 {
        assert(whole[n] == '-');
    }
}

/// A batch goes where it was asked to.  Every page is captured, once and in order.  A single page
/// and a path whose extension asks for a format give exactly that path and format.  All else gives
/// files in the directory asked for, or the working directory, each named after its page and ending
/// in the extension of the format, which is that of the flag or PNG.
pub proof fn law_a_batch_goes_where_it_was_asked_to(
    urls: Seq<PageUrl>,
    out: Option<OutputPath>,
    flag: Option<Format>,
    outputs: Outputs,
    i: int,
)
    requires
        resolved(urls, out, flag, outputs),
        0 <= i < urls.len(),
    ensures
        outputs.targets@.len() == urls.len(),
        outputs.targets@[i].url@ == urls[i].text@,
        ({
            let known = match out {
                Some(path) => match path.extension {
                    Some(extension) => image::format_of(extension@),
                    None => None,
                },
                None => None,
            };
            let target = outputs.targets@[i];
            let into = match out {
                Some(path) => path.text@,
                None => seq!['.'],
            };
            if urls.len() == 1 && known is Some {
                &&& outputs.format == known->0
                &&& target.file is Given
                &&& target.path@ == into
            } else {
                &&& flag is Some ==> outputs.format == flag->0
                &&& flag is None ==> outputs.format is Png
                &&& target.file is Named
                &&& ({
                    let name = target.file->Named_0@;
                    let base = derived(urls[i]@);
                    &&& base.len() < name.len() && name.take(base.len() as int) == base
                    &&& paths::is_name(name)
                    &&& paths::ends_in(name, seq!['.'] + outputs.format.extension())
                    &&& paths::may_join(into, name, target.path@)
                })
            }
        }),
{
    reveal_strlit(".");
    assert("."@ =~= seq!['.']);
    law_batch_files_are_names(urls, outputs.format, i);
    let base = derived(urls[i]@);
    let stem = numbered_names(derived_names(urls))[i];
    let extension = outputs.format.extension();
    let name = stem + "."@ + extension;
    assert(name.take(base.len() as int) =~= stem.take(base.len() as int));
    assert(name.subrange(name.len() - extension.len() - 1, name.len() as int) =~= seq!['.']
        + extension);
}

/// A number stands behind its name and a dash, in decimal, from the second on.
pub proof fn law_numbers_stand_behind_a_dash(name: Seq<char>, number: nat)
    ensures
        number > 1 ==> numbered(name, number) == name + seq!['-'] + text::decimal(number),
        number <= 1 ==> numbered(name, number) == name,
{
    reveal_strlit("-");
    assert("-"@ =~= seq!['-']);
}

/// A page takes its own name where no earlier page of the batch has it, and else the first number
/// from 2 on under which none has it.
pub proof fn law_a_page_takes_the_first_free_name(names: Seq<Seq<char>>, i: int)
    requires
        0 <= i < names.len(),
    ensures
        numbered_names(names).len() == names.len(),
        ({
            let earlier = numbered_names(names).take(i);
            let name = numbered_names(names)[i];
            &&& !earlier.contains(name)
            &&& !earlier.contains(names[i]) ==> name == names[i]
            &&& earlier.contains(names[i]) ==> exists|k: nat|
                k > 1 && name == #[trigger] numbered(names[i], k) && forall|m: nat|
                    1 < m < k ==> earlier.contains(#[trigger] numbered(names[i], m))
        }),
{
    lemma_name_at(names, i);
    let taken = numbered_names(names).take(i);
    lemma_free_number(names[i], taken, 1);
    let k = free_number(names[i], taken, 1);
    assert(numbered(names[i], 1) == names[i]);
    assert(numbered_names(names)[i] == numbered(names[i], k));
}

} // verus!
