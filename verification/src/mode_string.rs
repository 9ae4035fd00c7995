//! The mode strings with which callers open files, as in `"rb"` or `"w+"`.

use crate::types::{FileOpenMode, FileOpenType};
use vstd::prelude::*;
use vstd::string::StrSliceExecFns;

verus! {

/// The mode that one character of a mode string selects, if it selects one.
pub open spec fn mode_of_char(c: char) -> Option<FileOpenMode> {
    if c == 'r' {
        Some(FileOpenMode::Read)
    } else if c == 'w' {
        Some(FileOpenMode::Write)
    } else if c == 'x' {
        Some(FileOpenMode::ExclusiveWrite)
    } else if c == 'a' {
        Some(FileOpenMode::Append)
    } else if c == '+' {
        Some(FileOpenMode::Update)
    } else {
        None
    }
}

/// The mode that a mode string selects: that of its last character that
/// selects one, and reading if none does.
pub open spec fn mode_of(chars: Seq<char>) -> FileOpenMode
    decreases chars.len(),
{
    if chars.len() == 0 {
        FileOpenMode::Read
    } else {
        match mode_of_char(chars.last()) {
            Some(mode) => mode,
            None => mode_of(chars.drop_last()),
        }
    }
}

/// The type that a mode string selects: binary if it holds a `b`, text otherwise.
pub open spec fn type_of(chars: Seq<char>) -> FileOpenType {
    if chars.contains('b') {
        FileOpenType::Binary
    } else {
        FileOpenType::Text
    }
}

/// Reads a mode string. Each of `r`, `w`, `x`, `a` and `+` selects a mode,
/// and the last of them wins; `b` anywhere selects a binary file. Every
/// other character is passed over.
pub fn parse_open_mode(mode_and_type: &str) -> (r: (FileOpenMode, FileOpenType))
    ensures
        r.0 == mode_of(mode_and_type@),
        r.1 == type_of(mode_and_type@),
{
    let mut mode = FileOpenMode::Read;
    let mut type_ = FileOpenType::Text;
    let len = mode_and_type.unicode_len();
    let mut i: usize = 0;
    while i < len
        invariant
            i <= len,
            len == mode_and_type@.len(),
            mode == mode_of(mode_and_type@.subrange(0, i as int)),
            type_ == type_of(mode_and_type@.subrange(0, i as int)),
        decreases len - i,
    {
        let c = mode_and_type.get_char(i);
        proof {
            let seen = mode_and_type@.subrange(0, i as int);
            let next = mode_and_type@.subrange(0, i + 1);
            assert(next.drop_last() =~= seen);
            assert(next.last() == c);
            assert(next.contains('b') <==> seen.contains('b') || c == 'b') by {
                if seen.contains('b') {
                    let k = choose|k: int| 0 <= k < seen.len() && seen[k] == 'b';
                    assert(next[k] == 'b');
                }
                if c == 'b' {
                    assert(next[i as int] == 'b');
                }
                if next.contains('b') {
                    let k = choose|k: int| 0 <= k < next.len() && next[k] == 'b';
                    if k < i {
                        assert(seen[k] == 'b');
                    }
                }
            }
        }
        if c == 'r' {
            mode = FileOpenMode::Read;
        } else if c == 'w' {
            mode = FileOpenMode::Write;
        } else if c == 'x' {
            mode = FileOpenMode::ExclusiveWrite;
        } else if c == 'a' {
            mode = FileOpenMode::Append;
        } else if c == '+' {
            mode = FileOpenMode::Update;
        }
        if c == 'b' {
            type_ = FileOpenType::Binary;
        }
        i += 1;
    }
    proof {
        assert(mode_and_type@.subrange(0, i as int) =~= mode_and_type@);
    }
    (mode, type_)
}

} // verus!
