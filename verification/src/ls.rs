//! The listing pipeline: rendering and orchestration.
//!
//! Rendering is pure: a function from the resolved entries and expanded
//! directories to the output text, pinned exactly by spec functions.
//! The file block comes first, then the directory blocks; headers are
//! shown only when more than one group is displayed, and dotfiles are
//! never shown inside a directory block.

use vstd::prelude::*;
use crate::fs::dir::Dir;
use crate::fs::dir::DirView;
use crate::fs::dir::sort_by_name;
use crate::fs::file::File;
use crate::fs::file::spec_is_dotfile;

verus! {

/// The file block: each name but the last followed by a space and a
/// line break, the last name bare. Empty input leaves it empty.
pub open spec fn spec_display_files(files: Seq<File>) -> Seq<char>
    decreases files.len(),
{
    if files.len() == 0 {
        Seq::empty()
    } else if files.len() == 1 {
        files[0].name@
    } else {
        files[0].name@ + " \n"@ + spec_display_files(files.drop_first())
    }
}

/// One directory's rendered contents: each entry's name and a space, in
/// order, dotfiles skipped entirely.
pub open spec fn spec_dir_contents(s: Seq<File>) -> Seq<char>
    decreases s.len(),
{
    if s.len() == 0 {
        Seq::empty()
    } else {
        (if spec_is_dotfile(s[0]) {
            Seq::empty()
        } else {
            s[0].name@ + " "@
        }) + spec_dir_contents(s.drop_first())
    }
}

/// The directory blocks. With `multiple` set, each block opens with a
/// header line `name: `, and every block after the first is preceded by
/// a blank line; `first` says whether the next block is the first.
pub open spec fn spec_dir_blocks(dirs: Seq<DirView>, multiple: bool, first: bool) -> Seq<char>
    decreases dirs.len(),
{
    if dirs.len() == 0 {
        Seq::empty()
    } else {
        (if multiple {
            (if first {
                Seq::empty()
            } else {
                "\n\n"@
            }) + dirs[0].name + ": \n"@
        } else {
            Seq::empty()
        }) + spec_dir_contents(dirs[0].contents) + spec_dir_blocks(dirs.drop_first(), multiple, false)
    }
}

/// The directory phase: a blank line separates it from a displayed file
/// block when there is anything to separate, headers appear exactly
/// when files were displayed or several directories are listed, and one
/// final line break closes the output always.
pub open spec fn spec_display_dirs(dirs: Seq<DirView>, displayed_files: bool) -> Seq<char> {
    (if displayed_files && dirs.len() > 0 {
        "\n\n"@
    } else {
        Seq::empty()
    }) + spec_dir_blocks(dirs, displayed_files || dirs.len() > 1, true) + "\n"@
}

/// The whole listing: the file block, then the directory phase.
pub open spec fn spec_render(files: Seq<File>, dirs: Seq<DirView>) -> Seq<char> {
    spec_display_files(files) + spec_display_dirs(dirs, files.len() > 0)
}

/// The views of a sequence of directories.
pub open spec fn dir_views(ds: Seq<Dir>) -> Seq<DirView> {
    ds.map(|i: int, d: Dir| d@)
}

/// Rendering reads nothing but its arguments: identical inputs give
/// byte-identical output.
pub proof fn lemma_render_deterministic(
    files1: Seq<File>,
    dirs1: Seq<DirView>,
    files2: Seq<File>,
    dirs2: Seq<DirView>,
)
    requires
        files1 == files2,
        dirs1 == dirs2,
    ensures
        spec_render(files1, dirs1) == spec_render(files2, dirs2),
{
}

/// Dotfiles contribute nothing to a rendered directory body: filtering
/// them out beforehand leaves the text unchanged.
pub proof fn lemma_dotfiles_never_shown(s: Seq<File>)
    ensures
        spec_dir_contents(s) == spec_dir_contents(s.filter(|f: File| !spec_is_dotfile(f))),
    decreases s.len(),
{
    reveal(Seq::filter);
    let p = |f: File| !spec_is_dotfile(f);
    if s.len() == 0 {
        assert(s.filter(p) =~= s);
    } else {
        lemma_dotfiles_never_shown(s.drop_first());
        s.drop_first().lemma_filter_prepend(s[0], p);
        assert(seq![s[0]] + s.drop_first() =~= s);
        if p(s[0]) {
            assert(s.filter(p) == seq![s[0]] + s.drop_first().filter(p));
            let t = s.drop_first().filter(p);
            if t.len() == 0 {
                assert(s.filter(p) =~= seq![s[0]]);
                assert(spec_dir_contents(seq![s[0]].drop_first()) == Seq::<char>::empty());
                assert((s[0].name@ + " "@) + Seq::<char>::empty() =~= s[0].name@ + " "@);
                assert((s[0].name@ + " "@) + spec_dir_contents(s.drop_first()) =~= s[0].name@
                    + " "@);
            } else {
                assert((seq![s[0]] + t)[0] == s[0]);
                assert((seq![s[0]] + t).drop_first() =~= t);
            }
        } else {
            assert(s.filter(p) == s.drop_first().filter(p));
            assert(Seq::<char>::empty() + spec_dir_contents(s.drop_first())
                =~= spec_dir_contents(s.drop_first()));
        }
    }
}

/// Renders the file block.
pub fn display_files(files: &Vec<File>) -> (r: String)
    ensures
        r@ == spec_display_files(files@),
{
    let mut out = String::new();
    let mut i: usize = 0;
    proof {
        assert(files@.skip(0) =~= files@);
        assert(Seq::<char>::empty() + spec_display_files(files@) =~= spec_display_files(files@));
    }
    while i < files.len()
        invariant
            i <= files@.len(),
            out@ + spec_display_files(files@.skip(i as int)) == spec_display_files(files@),
        decreases files@.len() - i,
    {
        let ghost pre = out@;
        out.append(files[i].name.as_str());
        if i + 1 < files.len() {
            out.append(" \n");
        }
        proof {
            let rest = files@.skip(i as int);
            assert(rest[0] == files@[i as int]);
            assert(rest.drop_first() =~= files@.skip(i + 1));
            if i + 1 < files@.len() {
                assert(out@ =~= (pre + rest[0].name@) + " \n"@);
                assert(((pre + rest[0].name@) + " \n"@) + spec_display_files(rest.drop_first())
                    =~= pre + ((rest[0].name@ + " \n"@) + spec_display_files(rest.drop_first())));
            } else {
                assert(rest.len() == 1);
                assert(spec_display_files(files@.skip(i + 1)) == Seq::<char>::empty());
                assert((pre + rest[0].name@) + Seq::<char>::empty() =~= pre + rest[0].name@);
            }
        }
        i = i + 1;
    }
    proof {
        assert(out@ + spec_display_files(files@.skip(i as int)) =~= out@);
    }
    out
}

/// Renders the directory phase.
pub fn display_dirs(dirs: &Vec<Dir>, displayed_files: bool) -> (r: String)
    ensures
        r@ == spec_display_dirs(dir_views(dirs@), displayed_files),
{
    let ghost views = dir_views(dirs@);
    let ghost prefix: Seq<char> = if displayed_files && views.len() > 0 {
        "\n\n"@
    } else {
        Seq::empty()
    };
    let mut out = String::new();
    if displayed_files && dirs.len() > 0 {
        out.append("\n\n");
    }
    let multiple = displayed_files || dirs.len() > 1;
    let mut i: usize = 0;
    proof {
        assert(out@ =~= prefix);
        assert(views.skip(0) =~= views);
    }
    while i < dirs.len()
        invariant
            i <= dirs@.len(),
            views == dir_views(dirs@),
            views.len() == dirs@.len(),
            multiple == (displayed_files || dirs@.len() > 1),
            out@ + spec_dir_blocks(views.skip(i as int), multiple, i == 0) == prefix
                + spec_dir_blocks(views, multiple, true),
        decreases dirs@.len() - i,
    {
        let ghost pre = out@;
        let ghost rest = views.skip(i as int);
        proof {
            assert(rest[0] == views[i as int]);
            assert(views[i as int] == dirs@[i as int]@);
            assert(rest.drop_first() =~= views.skip(i + 1));
        }
        if multiple {
            if i > 0 {
                out.append("\n\n");
            }
            out.append(dirs[i].name.as_str());
            out.append(": \n");
        }
        let ghost hpre = out@;
        proof {
            if multiple {
                if i == 0 {
                    assert(out@ =~= pre + ((Seq::<char>::empty() + rest[0].name) + ": \n"@));
                } else {
                    assert(out@ =~= pre + (("\n\n"@ + rest[0].name) + ": \n"@));
                }
            }
        }
        let d = &dirs[i];
        let mut j: usize = 0;
        proof {
            assert(d.contents@.skip(0) =~= d.contents@);
        }
        while j < d.contents.len()
            invariant
                j <= d.contents@.len(),
                out@ + spec_dir_contents(d.contents@.skip(j as int)) == hpre + spec_dir_contents(
                    d.contents@,
                ),
            decreases d.contents@.len() - j,
        {
            let ghost cpre = out@;
            let ghost crest = d.contents@.skip(j as int);
            proof {
                assert(crest[0] == d.contents@[j as int]);
                assert(crest.drop_first() =~= d.contents@.skip(j + 1));
            }
            if d.contents[j].is_dotfile() {
                proof {
                    assert(Seq::<char>::empty() + spec_dir_contents(crest.drop_first())
                        =~= spec_dir_contents(crest.drop_first()));
                }
            } else {
                out.append(d.contents[j].name.as_str());
                out.append(" ");
                proof {
                    assert(out@ =~= cpre + (crest[0].name@ + " "@));
                    assert((cpre + (crest[0].name@ + " "@)) + spec_dir_contents(crest.drop_first())
                        =~= cpre + ((crest[0].name@ + " "@) + spec_dir_contents(
                        crest.drop_first(),
                    )));
                }
            }
            j = j + 1;
        }
        proof {
            assert(out@ + spec_dir_contents(d.contents@.skip(j as int)) =~= out@);
            assert(out@ =~= hpre + spec_dir_contents(rest[0].contents));
            let hdr: Seq<char> = if multiple {
                (if i == 0 {
                    Seq::<char>::empty()
                } else {
                    "\n\n"@
                }) + rest[0].name + ": \n"@
            } else {
                Seq::<char>::empty()
            };
            assert(hpre =~= pre + hdr);
            assert(spec_dir_blocks(rest, multiple, i == 0) == (hdr + spec_dir_contents(
                rest[0].contents,
            )) + spec_dir_blocks(rest.drop_first(), multiple, false));
            assert(((pre + hdr) + spec_dir_contents(rest[0].contents)) + spec_dir_blocks(
                rest.drop_first(),
                multiple,
                false,
            ) =~= pre + ((hdr + spec_dir_contents(rest[0].contents)) + spec_dir_blocks(
                rest.drop_first(),
                multiple,
                false,
            )));
        }
        i = i + 1;
    }
    proof {
        assert(out@ + spec_dir_blocks(views.skip(i as int), multiple, i == 0) =~= out@);
    }
    out.append("\n");
    proof {
        assert(out@ =~= (prefix + spec_dir_blocks(views, multiple, true)) + "\n"@);
    }
    out
}

/// How one input path resolved: its metadata could not be read, it is a
/// plain entry, or it is a directory together with the outcome of
/// reading its children.
pub enum Resolution {
    /// Metadata could not be read: the raw path and the error message.
    Failed { path: String, message: String },
    /// A resolved entry that is not a directory.
    Plain(File),
    /// A resolved directory, and its children as read (unsorted), or
    /// the message of the failure that aborted the read.
    Directory(File, Result<Vec<File>, String>),
}

/// One path's recorded failure.
pub struct PathError {
    pub path: String,
    pub message: String,
}

/// The outcome of a listing run: the rendered text and the per-path
/// failures, in processing order.
pub struct Listing {
    pub output: String,
    pub errors: Vec<PathError>,
}

/// The plain entries among the resolutions, in order.
pub open spec fn spec_plains(rs: Seq<Resolution>) -> Seq<File>
    decreases rs.len(),
{
    if rs.len() == 0 {
        Seq::empty()
    } else {
        spec_plains(rs.drop_last()) + (match rs.last() {
            Resolution::Plain(f) => seq![f],
            _ => Seq::empty(),
        })
    }
}

/// The directories that were read, in order, their contents sorted.
pub open spec fn spec_dirs(rs: Seq<Resolution>) -> Seq<DirView>
    decreases rs.len(),
{
    if rs.len() == 0 {
        Seq::empty()
    } else {
        spec_dirs(rs.drop_last()) + (match rs.last() {
            Resolution::Directory(f, res) => match res {
                Ok(ch) => seq![(DirView { name: f.name@, contents: sort_by_name(ch@) })],
                Err(m) => Seq::empty(),
            },
            _ => Seq::empty(),
        })
    }
}

/// The failures among the resolutions, in order: a stat failure keeps
/// its raw path, a directory read failure is charged to the directory's
/// own path.
pub open spec fn spec_errors(rs: Seq<Resolution>) -> Seq<PathError>
    decreases rs.len(),
{
    if rs.len() == 0 {
        Seq::empty()
    } else {
        spec_errors(rs.drop_last()) + (match rs.last() {
            Resolution::Failed { path, message } => seq![(PathError { path, message })],
            Resolution::Directory(f, res) => match res {
                Ok(ch) => Seq::empty(),
                Err(m) => seq![(PathError { path: f.path, message: m })],
            },
            _ => Seq::empty(),
        })
    }
}

/// The text a run over these resolutions produces.
pub open spec fn spec_listing_output(rs: Seq<Resolution>) -> Seq<char> {
    spec_render(spec_plains(rs), spec_dirs(rs))
}

/// A resolution is consistent when plain entries are not directories
/// and read outcomes belong to directories.
pub open spec fn resolution_wf(r: Resolution) -> bool {
    match r {
        Resolution::Failed { path, message } => true,
        Resolution::Plain(f) => !f.directory,
        Resolution::Directory(f, res) => f.directory,
    }
}

/// Runs the listing over the resolved input paths: renders the plain
/// entries and the read directories, and records one error per failed
/// path, in processing order.
pub fn run(resolved: Vec<Resolution>) -> (r: Listing)
    requires
        forall|i: int| 0 <= i < resolved@.len() ==> resolution_wf(#[trigger] resolved@[i]),
    ensures
        r.output@ == spec_listing_output(resolved@),
        r.errors@ == spec_errors(resolved@),
{
    let ghost orig: Seq<Resolution> = resolved@;
    let mut rest = resolved;
    let n: usize = rest.len();
    let mut files: Vec<File> = Vec::new();
    let mut dirs: Vec<Dir> = Vec::new();
    let mut errors: Vec<PathError> = Vec::new();
    let mut k: usize = 0;
    proof {
        assert(orig.take(0) =~= Seq::<Resolution>::empty());
        assert(orig.skip(0) =~= orig);
    }
    while rest.len() > 0
        invariant
            n == orig.len(),
            k + rest@.len() == orig.len(),
            rest@ == orig.skip(k as int),
            forall|i: int| 0 <= i < orig.len() ==> resolution_wf(#[trigger] orig[i]),
            files@ == spec_plains(orig.take(k as int)),
            dir_views(dirs@) == spec_dirs(orig.take(k as int)),
            errors@ == spec_errors(orig.take(k as int)),
        decreases rest@.len(),
    {
        let x = rest.remove(0);
        proof {
            assert(orig.skip(k as int).remove(0) =~= orig.skip(k + 1));
            assert(x == orig[k as int]);
            assert(orig.take(k + 1).drop_last() =~= orig.take(k as int));
            assert(orig.take(k + 1).last() == x);
        }
        let ghost files_pre = files@;
        let ghost dirs_pre = dirs@;
        let ghost errors_pre = errors@;
        match x {
            Resolution::Failed { path, message } => {
                proof {
                    assert(files_pre + Seq::<File>::empty() =~= files_pre);
                    assert(dir_views(dirs_pre) + Seq::<DirView>::empty() =~~= dir_views(dirs_pre));
                }
                errors.push(PathError { path, message });
                proof {
                    assert(errors@ =~= errors_pre + seq![(PathError { path, message })]);
                }
            },
            Resolution::Plain(f) => {
                proof {
                    assert(errors_pre + Seq::<PathError>::empty() =~= errors_pre);
                    assert(dir_views(dirs_pre) + Seq::<DirView>::empty() =~~= dir_views(dirs_pre));
                }
                files.push(f);
                proof {
                    assert(files@ =~= files_pre + seq![f]);
                }
            },
            Resolution::Directory(f, res) => {
                proof {
                    assert(resolution_wf(orig[k as int]));
                    assert(f.directory);
                }
                match res {
                    Ok(children) => {
                        let ghost ch: Seq<File> = children@;
                        proof {
                            assert(files_pre + Seq::<File>::empty() =~= files_pre);
                            assert(errors_pre + Seq::<PathError>::empty() =~= errors_pre);
                        }
                        let d = Dir::new(f, children);
                        dirs.push(d);
                        proof {
                            assert(d@ == (DirView { name: f.name@, contents: sort_by_name(ch) }));
                            assert(dir_views(dirs@) =~~= dir_views(dirs_pre) + seq![d@]);
                        }
                    },
                    Err(message) => {
                        proof {
                            assert(files_pre + Seq::<File>::empty() =~= files_pre);
                            assert(dir_views(dirs_pre) + Seq::<DirView>::empty() =~~= dir_views(
                                dirs_pre,
                            ));
                        }
                        errors.push(PathError { path: f.path, message });
                        proof {
                            assert(errors@ =~= errors_pre + seq![
                                (PathError { path: f.path, message }),
                            ]);
                        }
                    },
                }
            },
        }
        k = k + 1;
    }
    proof {
        assert(orig.take(k as int) =~= orig);
    }
    let out_files = display_files(&files);
    let displayed = files.len() > 0;
    let out_dirs = display_dirs(&dirs, displayed);
    let mut output = out_files;
    output.append(out_dirs.as_str());
    Listing { output, errors }
}

} // verus!
