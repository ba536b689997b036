//! Artifact locations: `/`-separated paths and the folder that holds a file.

use crate::text::chars_of;
use vstd::prelude::*;

verus! {

/// The pieces of `path` between its `/`s, empty pieces included: a path
/// with `n` separators has `n + 1` pieces.
pub open spec fn pieces(path: Seq<char>) -> Seq<Seq<char>>
    decreases path.len(),
{
    if path.len() == 0 {
        seq![Seq::empty()]
    } else {
        let before = pieces(path.drop_last());
        if path.last() == '/' {
            before.push(Seq::empty())
        } else {
            before.drop_last().push(before.last().push(path.last()))
        }
    }
}

/// Whether a piece names something: it is neither empty nor `.`.
pub open spec fn is_name(piece: Seq<char>) -> bool {
    piece.len() > 0 && piece != seq!['.']
}

/// The names along `path`, in order.
pub open spec fn names_of(path: Seq<char>) -> Seq<Seq<char>> {
    pieces(path).filter(|piece: Seq<char>| is_name(piece))
}

/// The name of the folder that immediately holds the file at `path`: the
/// last name but one, unless that is `..`. A path with less than two names
/// has no such folder.
pub open spec fn folder_of(path: Seq<char>) -> Option<Seq<char>> {
    let names = names_of(path);
    if names.len() >= 2 && names[names.len() - 2] != seq!['.', '.'] {
        Some(names[names.len() - 2])
    } else {
        None
    }
}

fn is_name_exec(piece: &Vec<char>) -> (r: bool)
    ensures
        r == is_name(piece@),
{
    if piece.len() == 0 {
        false
    } else if piece.len() == 1 && piece[0] == '.' {
        assert(piece@ =~= seq!['.']);
        false
    } else {
        assert(piece@ != seq!['.']) by {
            if piece@.len() == 1 {
                assert(seq!['.'][0] == '.');
            } else {
                assert(seq!['.'].len() == 1);
            }
        }
        true
    }
}

fn is_parent_mark(piece: &Vec<char>) -> (r: bool)
    ensures
        r == (piece@ == seq!['.', '.']),
{
    if piece.len() == 2 && piece[0] == '.' && piece[1] == '.' {
        assert(piece@ =~= seq!['.', '.']);
        true
    } else {
        assert(piece@ != seq!['.', '.']) by {
            if piece@.len() == 2 {
                assert(seq!['.', '.'][0] == '.');
                assert(seq!['.', '.'][1] == '.');
            } else {
                assert(seq!['.', '.'].len() == 2);
            }
        }
        false
    }
}

/// The last name and the name before it among `names`.
spec fn last_two(names: Seq<Seq<char>>) -> (Option<Seq<char>>, Option<Seq<char>>) {
    (
        if names.len() >= 2 {
            Some(names[names.len() - 2])
        } else {
            None
        },
        if names.len() >= 1 {
            Some(names[names.len() - 1])
        } else {
            None
        },
    )
}

spec fn option_view(piece: Option<Vec<char>>) -> Option<Seq<char>> {
    match piece {
        Some(p) => Some(p@),
        None => None,
    }
}

/// The last two names along `path`: the last but one, and the last.
fn last_names(path: &str) -> (r: (Option<Vec<char>>, Option<Vec<char>>))
    ensures
        (option_view(r.0), option_view(r.1)) == last_two(names_of(path@)),
{
    let chars = chars_of(path);
    let mut before: Option<Vec<char>> = None;
    let mut last: Option<Vec<char>> = None;
    let mut current: Vec<char> = Vec::new();
    let mut i: usize = 0;
    proof {
        reveal(Seq::filter);
        assert(chars@.take(0) =~= Seq::<char>::empty());
        assert(pieces(chars@.take(0)).drop_last() =~= Seq::<Seq<char>>::empty());
    }
    while i < chars.len()
        invariant
            i <= chars.len(),
            chars@ == path@,
            pieces(chars@.take(i as int)).len() >= 1,
            current@ == pieces(chars@.take(i as int)).last(),
            (option_view(before), option_view(last)) == last_two(
                pieces(chars@.take(i as int)).drop_last().filter(|piece: Seq<char>| is_name(piece)),
            ),
        decreases chars.len() - i,
    {
        let ghost prefix = chars@.take(i as int);
        let ghost next = chars@.take(i + 1);
        let ghost done = pieces(prefix).drop_last();
        let ghost keep = |piece: Seq<char>| is_name(piece);
        proof {
            assert(next.drop_last() =~= prefix);
            assert(next.last() == chars@[i as int]);
        }
        if chars[i] == '/' {
            proof {
                assert(pieces(next) == pieces(prefix).push(Seq::empty()));
                assert(pieces(next).drop_last() =~= pieces(prefix));
                assert(pieces(prefix) =~= done.push(current@));
                reveal(Seq::filter);
                assert(done.push(current@).drop_last() =~= done);
                assert(done.push(current@).filter(keep) == if is_name(current@) {
                    done.filter(keep).push(current@)
                } else {
                    done.filter(keep)
                });
            }
            if is_name_exec(&current) {
                before = last;
                last = Some(current);
            }
            current = Vec::new();
        } else {
            proof {
                assert(pieces(next) == pieces(prefix).drop_last().push(
                    pieces(prefix).last().push(chars@[i as int]),
                ));
                assert(pieces(next).drop_last() =~= done);
            }
            current.push(chars[i]);
        }
        i += 1;
    }
    proof {
        let keep = |piece: Seq<char>| is_name(piece);
        let all = pieces(chars@);
        assert(chars@.take(i as int) =~= chars@);
        assert(all =~= all.drop_last().push(current@));
        reveal(Seq::filter);
        assert(all.filter(keep) == if is_name(current@) {
            all.drop_last().filter(keep).push(current@)
        } else {
            all.drop_last().filter(keep)
        });
    }
    if is_name_exec(&current) {
        (last, Some(current))
    } else {
        (before, last)
    }
}

/// The name of the folder that immediately holds the file at `path`.
pub fn containing_folder(path: &str) -> (r: Option<Vec<char>>)
    ensures
        match r {
            Some(name) => folder_of(path@) == Some(name@),
            None => folder_of(path@) is None,
        },
{
    match last_names(path).0 {
        Some(name) => if is_parent_mark(&name) {
            None
        } else {
            Some(name)
        },
        None => None,
    }
}

/// The name of the file at `path`: the last name, unless that is `..`.
pub open spec fn file_name_of(path: Seq<char>) -> Option<Seq<char>> {
    let names = names_of(path);
    if names.len() >= 1 && names.last() != seq!['.', '.'] {
        Some(names.last())
    } else {
        None
    }
}

/// Whether a file name ends in `.json`, with something before the dot. The
/// extension is compared as it stands: `.JSON` is another one.
pub open spec fn is_json_name(name: Seq<char>) -> bool {
    name.len() > 5 && name.subrange(name.len() - 5, name.len() as int) == seq![
        '.',
        'j',
        's',
        'o',
        'n',
    ]
}

/// Whether `path` names a file with the extension `json`.
pub open spec fn names_json_file(path: Seq<char>) -> bool {
    file_name_of(path) matches Some(name) && is_json_name(name)
}

/// Whether `path` names a file with the extension `json`.
pub fn has_json_extension(path: &str) -> (r: bool)
    ensures
        r == names_json_file(path@),
{
    match last_names(path).1 {
        Some(name) => {
            let n = name.len();
            if n > 5 && name[n - 5] == '.' && name[n - 4] == 'j' && name[n - 3] == 's' && name[n
                - 2] == 'o' && name[n - 1] == 'n' {
                assert(name@.subrange(n - 5, n as int) =~= seq!['.', 'j', 's', 'o', 'n']);
                assert(name@ != seq!['.', '.']) by {
                    assert(seq!['.', '.'].len() == 2);
                }
                true
            } else {
                assert(!is_json_name(name@)) by {
                    if n > 5 {
                        let tail = name@.subrange(n - 5, n as int);
                        let wanted = seq!['.', 'j', 's', 'o', 'n'];
                        assert(tail[0] == name@[n - 5]);
                        assert(tail[1] == name@[n - 4]);
                        assert(tail[2] == name@[n - 3]);
                        assert(tail[3] == name@[n - 2]);
                        assert(tail[4] == name@[n - 1]);
                        assert(wanted[0] == '.' && wanted[1] == 'j' && wanted[2] == 's'
                            && wanted[3] == 'o' && wanted[4] == 'n');
                    }
                }
                false
            }
        },
        None => false,
    }
}

} // verus!
