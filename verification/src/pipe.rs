//! Named pipes through which a running manager takes links.

use crate::text::to_chars;
use vstd::prelude::*;
use vstd::string::*;

verus! {

/// Whether a character may stand in the name of a pipe.
pub open spec fn pipe_char(c: char) -> bool {
    ||| 'A' <= c <= 'Z'
    ||| 'a' <= c <= 'z'
    ||| '0' <= c <= '9'
    ||| c == '.'
    ||| c == '_'
    ||| c == '-'
}

/// Whether a text may be the name of a pipe: 1 to 128 characters, each an ASCII letter or digit,
/// a dot, an underscore or a hyphen.
pub open spec fn valid_pipe_name(name: Seq<char>) -> bool {
    &&& 1 <= name.len() <= 128
    &&& forall|i: int| 0 <= i < name.len() ==> pipe_char(#[trigger] name[i])
}

/// Whether a string may be the name of a pipe.
pub fn is_valid_pipe_name(pipe: &str) -> (valid: bool)
    ensures
        valid == valid_pipe_name(pipe@),
{
    let chars = to_chars(pipe);
    if chars.len() < 1 || chars.len() > 128 {
        return false;
    }
    let mut i: usize = 0;
    while i < chars.len()
        invariant
            i <= chars@.len(),
            chars@ == pipe@,
            1 <= chars@.len() <= 128,
            forall|j: int| 0 <= j < i ==> pipe_char(#[trigger] pipe@[j]),
        decreases chars@.len() - i,
    {
        let c = chars[i];
        if !(('A' <= c && c <= 'Z') || ('a' <= c && c <= 'z') || ('0' <= c && c <= '9') || c == '.'
            || c == '_' || c == '-') {
            assert(!pipe_char(pipe@[i as int]));
            return false;
        }
        i += 1;
    }
    true
}

/// The path under which the system opens a named pipe.
pub open spec fn pipe_path_text(pipe: Seq<char>) -> Seq<char> {
    r"\\.\pipe\"@ + pipe
}

/// The path to open in order to write to a named pipe.
pub fn pipe_path(pipe: &str) -> (path: String)
    ensures
        path@ == pipe_path_text(pipe@),
{
    let mut path: String = r"\\.\pipe\".to_owned();
    path.append(pipe);
    path
}

/// Whether a link reached the manager, by what came of opening its pipe and writing to it:
/// any write that did not fail counts, whatever the number of bytes it took.
pub fn try_write_pipe(written: Result<usize, String>) -> (sent: bool)
    ensures
        sent == (written is Ok),
{
    match written {
        Ok(_) => true,
        Err(_) => false,
    }
}

/// The path of a pipe is its name, whole, behind a prefix that all pipes share.
pub proof fn law_path_ends_in_the_name(pipe: Seq<char>)
    ensures
        pipe_path_text(pipe).len() == 9 + pipe.len(),
        pipe_path_text(pipe).take(9) == seq!['\\', '\\', '.', '\\', 'p', 'i', 'p', 'e', '\\'],
        pipe_path_text(pipe).skip(9) == pipe,
{
    reveal_strlit(r"\\.\pipe\");
    assert(pipe_path_text(pipe).take(9) =~= seq![
        '\\',
        '\\',
        '.',
        '\\',
        'p',
        'i',
        'p',
        'e',
        '\\',
    ]);
    assert(pipe_path_text(pipe).skip(9) =~= pipe);
}

} // verus!
