//! Paths of files, written with `/` between a directory and what lies in it.

use vstd::prelude::*;
use vstd::string::*;
use crate::fields::{lemma_pieces_nonempty, pieces, split_at_char};
use crate::text::{chars_of, texts};

verus! {

/// The name of the rules file within the data directory.
pub const RULES_FILE: &'static str = "rules.bincode";

/// The name of the checkpoint file within the data directory.
pub const CHECKPOINT_FILE: &'static str = "ml_processor_checkpoint.txt";

/// The path of the file `name` in the directory `dir`, with `/` between them
/// unless `dir` is empty or ends in one.
pub open spec fn joined(dir: Seq<char>, name: Seq<char>) -> Seq<char> {
    if dir.len() == 0 || dir.last() == '/' {
        dir + name
    } else {
        dir.push('/') + name
    }
}

/// Joins a directory and the name of a file in it.
pub fn join(dir: &str, name: &str) -> (path: String)
    ensures
        path@ == joined(dir@, name@),
{
    let chars = chars_of(dir);
    let mut path = String::from_str(dir);
    if chars.len() > 0 && chars[chars.len() - 1] != '/' {
        proof {
            reveal_strlit("/");
            assert("/"@ =~= seq!['/']);
        }
        path.append("/");
        assert(path@ =~= dir@.push('/'));
    }
    path.append(name);
    path
}

/// Where the rules file of the data directory `data_dir` lies.
pub fn rules_path(data_dir: &str) -> (path: String)
    ensures
        path@ == joined(data_dir@, RULES_FILE@),
{
    join(data_dir, RULES_FILE)
}

/// Where the checkpoint file of the data directory `data_dir` lies.
pub fn checkpoint_path(data_dir: &str) -> (path: String)
    ensures
        path@ == joined(data_dir@, CHECKPOINT_FILE@),
{
    join(data_dir, CHECKPOINT_FILE)
}

/// The name of the file at the end of `path`: what follows its last `/`.
pub open spec fn file_name(path: Seq<char>) -> Seq<char> {
    pieces(path, '/').last()
}

/// The name of the file at the end of `path`.
pub fn file_name_of(path: &str) -> (name: String)
    ensures
        name@ == file_name(path@),
{
    let mut parts = split_at_char(path, '/');
    proof {
        lemma_pieces_nonempty(path@, '/');
    }
    let ghost all = texts(parts@);
    let name = parts.pop().unwrap();
    assert(name@ == all.last());
    name
}

/// Where a download of `url` into the directory `data_dir` is stored: under
/// the name at the end of the address.
pub fn download_path(url: &str, data_dir: &str) -> (path: String)
    ensures
        path@ == joined(data_dir@, file_name(url@)),
{
    let name = file_name_of(url);
    join(data_dir, name.as_str())
}

/// The arguments with which the download tool fetches `url` into the file
/// `file_path`, resuming a download that was begun.
pub open spec fn download_arguments(url: Seq<char>, file_path: Seq<char>) -> Seq<Seq<char>> {
    seq!["-o"@, file_path, "--check-certificate"@, "false"@, "-c"@, url]
}

/// Builds the arguments of the download tool.
pub fn download(url: &str, file_path: &str) -> (arguments: Vec<String>)
    ensures
        texts(arguments@) == download_arguments(url@, file_path@),
{
    let mut arguments: Vec<String> = Vec::new();
    arguments.push(String::from_str("-o"));
    arguments.push(String::from_str(file_path));
    arguments.push(String::from_str("--check-certificate"));
    arguments.push(String::from_str("false"));
    arguments.push(String::from_str("-c"));
    arguments.push(String::from_str(url));
    assert(texts(arguments@) =~= download_arguments(url@, file_path@));
    arguments
}

} // verus!
