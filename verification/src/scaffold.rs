//! The template scaffolder.
//!
//! A template is a file tree with a placeholder token; scaffolding
//! materialises it under a target directory, substituting the project name
//! for every occurrence of the token in file paths and file contents.
//! Unlike a restore, scaffolding is all-or-nothing: the whole file list is
//! computed here before the surrounding binary writes anything, so an
//! unknown template or an occupied target writes no file at all.

use vstd::prelude::*;

use crate::error::ScaffoldError;
use crate::layout::{bytes_eq, clone_bytes};

verus! {

/// One file of a template: its relative path and its contents.
pub struct TemplateFile {
    pub path: Vec<u8>,
    pub contents: Vec<u8>,
}

/// A template: its id, its placeholder token, its files.
pub struct Template {
    pub id: Vec<u8>,
    pub placeholder: Vec<u8>,
    pub files: Vec<TemplateFile>,
}

/// The template registry: the templates the host ships, ids unique by
/// convention; a duplicated id resolves to its first entry.
pub struct TemplateRegistry {
    pub templates: Vec<Template>,
}

/// Mathematical view of a template file.
pub ghost struct TemplateFileV {
    pub path: Seq<u8>,
    pub contents: Seq<u8>,
}

/// Mathematical view of a template.
pub ghost struct TemplateV {
    pub id: Seq<u8>,
    pub placeholder: Seq<u8>,
    pub files: Seq<TemplateFileV>,
}

impl View for TemplateFile {
    type V = TemplateFileV;

    open spec fn view(&self) -> TemplateFileV {
        TemplateFileV { path: self.path@, contents: self.contents@ }
    }
}

impl View for Template {
    type V = TemplateV;

    open spec fn view(&self) -> TemplateV {
        TemplateV {
            id: self.id@,
            placeholder: self.placeholder@,
            files: self.files@.map_values(|f: TemplateFile| f@),
        }
    }
}

/// Every occurrence of `pat` in `s` replaced by `rep`, scanning left to
/// right without overlap; an empty pattern replaces nothing.
pub open spec fn replaced(s: Seq<u8>, pat: Seq<u8>, rep: Seq<u8>) -> Seq<u8>
    decreases s.len(),
{
    if pat.len() == 0 {
        s
    } else if s.len() == 0 {
        Seq::empty()
    } else if pat.len() <= s.len() && s.take(pat.len() as int) == pat {
        rep + replaced(s.skip(pat.len() as int), pat, rep)
    } else {
        seq![s[0]] + replaced(s.skip(1), pat, rep)
    }
}

/// First-match resolution of a template id in the registry.
pub open spec fn template_lookup(s: Seq<Template>, id: Seq<u8>) -> Option<TemplateV>
    decreases s.len(),
{
    if s.len() == 0 {
        None
    } else if s[0].id@ == id {
        Some(s[0]@)
    } else {
        template_lookup(s.skip(1), id)
    }
}

/// One scaffolded file: the target directory, a separator, and the
/// substituted relative path; contents substituted the same way.
pub open spec fn scaffold_file(
    f: TemplateFileV,
    ph: Seq<u8>,
    name: Seq<u8>,
    target: Seq<u8>,
) -> TemplateFileV {
    TemplateFileV {
        path: target + seq![47u8] + replaced(f.path, ph, name),
        contents: replaced(f.contents, ph, name),
    }
}

/// Every file a scaffold of this template writes, in template order.
pub open spec fn scaffold_files(t: TemplateV, name: Seq<u8>, target: Seq<u8>) -> Seq<
    TemplateFileV,
> {
    t.files.map_values(|f: TemplateFileV| scaffold_file(f, t.placeholder, name, target))
}

/// Whether `pat` occurs in `s` at position `i`.
fn match_at(s: &Vec<u8>, i: usize, pat: &Vec<u8>) -> (r: bool)
    requires
        i + pat.len() <= s.len(),
    ensures
        r == (s@.skip(i as int).take(pat@.len() as int) == pat@),
{
    let ghost t = s@.skip(i as int).take(pat@.len() as int);
    let n = s.len();
    for j in 0..pat.len()
        invariant
            n == s@.len(),
            i + pat@.len() <= n,
            t == s@.skip(i as int).take(pat@.len() as int),
            forall|k: int| 0 <= k < j ==> t[k] == pat@[k],
    {
        proof {
            assert(i + j < n);
            assert(t[j as int] == s@[i + j]);
        }
        if s[i + j] != pat[j] {
            proof {
                assert(t[j as int] != pat@[j as int]);
            }
            return false;
        }
    }
    proof {
        assert(t =~= pat@);
    }
    true
}

/// Appends a copy of `v` to `out`.
fn extend_bytes(out: &mut Vec<u8>, v: &Vec<u8>)
    ensures
        final(out)@ == old(out)@ + v@,
{
    for i in 0..v.len()
        invariant
            out@ == old(out)@ + v@.take(i as int),
    {
        out.push(v[i]);
        assert(out@ =~= old(out)@ + v@.take(i + 1));
    }
    assert(v@.take(v.len() as int) =~= v@);
}

/// Replaces every occurrence of `pat` in `s` by `rep`.
pub fn replace_bytes(s: &Vec<u8>, pat: &Vec<u8>, rep: &Vec<u8>) -> (r: Vec<u8>)
    ensures
        r@ == replaced(s@, pat@, rep@),
{
    if pat.len() == 0 {
        return clone_bytes(s);
    }
    let mut out: Vec<u8> = Vec::new();
    let mut i: usize = 0;
    proof {
        assert(s@.skip(0) =~= s@);
        assert(Seq::<u8>::empty() + replaced(s@, pat@, rep@) =~= replaced(s@, pat@, rep@));
    }
    while i < s.len()
        invariant
            pat@.len() >= 1,
            i <= s@.len(),
            replaced(s@, pat@, rep@) == out@ + replaced(s@.skip(i as int), pat@, rep@),
        decreases s@.len() - i,
    {
        let ghost rest = s@.skip(i as int);
        if pat.len() <= s.len() - i && match_at(s, i, pat) {
            let ghost old_out = out@;
            extend_bytes(&mut out, rep);
            proof {
                assert(rest.skip(pat@.len() as int) =~= s@.skip(i + pat@.len()));
                assert(replaced(rest, pat@, rep@) == rep@ + replaced(
                    s@.skip(i + pat@.len()),
                    pat@,
                    rep@,
                ));
                assert((old_out + rep@) + replaced(s@.skip(i + pat@.len()), pat@, rep@) =~= old_out
                    + (rep@ + replaced(s@.skip(i + pat@.len()), pat@, rep@)));
            }
            i = i + pat.len();
        } else {
            let ghost old_out = out@;
            out.push(s[i]);
            proof {
                assert(rest[0] == s@[i as int]);
                assert(rest.skip(1) =~= s@.skip(i + 1));
                if pat@.len() <= rest.len() {
                    assert(rest.take(pat@.len() as int) != pat@);
                }
                assert(replaced(rest, pat@, rep@) == seq![s@[i as int]] + replaced(
                    s@.skip(i + 1),
                    pat@,
                    rep@,
                ));
                assert(out@ =~= old_out + seq![s@[i as int]]);
                assert((old_out + seq![s@[i as int]]) + replaced(s@.skip(i + 1), pat@, rep@)
                    =~= old_out + (seq![s@[i as int]] + replaced(s@.skip(i + 1), pat@, rep@)));
            }
            i = i + 1;
        }
    }
    proof {
        assert(s@.skip(s@.len() as int).len() == 0);
        assert(replaced(s@.skip(s@.len() as int), pat@, rep@) == Seq::<u8>::empty());
        assert(out@ + Seq::<u8>::empty() =~= out@);
    }
    out
}

/// Resolves a template id to its index in the registry.
fn find_template(reg: &TemplateRegistry, id: &Vec<u8>) -> (r: Option<usize>)
    ensures
        match r {
            Some(k) => k < reg.templates@.len() && template_lookup(reg.templates@, id@) == Some(
                reg.templates@[k as int]@,
            ),
            None => template_lookup(reg.templates@, id@) is None,
        },
{
    let ghost regs = reg.templates@;
    proof {
        assert(regs.skip(0) =~= regs);
    }
    let mut ti: usize = 0;
    while ti < reg.templates.len()
        invariant
            regs == reg.templates@,
            ti <= regs.len(),
            template_lookup(regs, id@) == template_lookup(regs.skip(ti as int), id@),
        decreases regs.len() - ti,
    {
        proof {
            assert(regs.skip(ti as int)[0] == regs[ti as int]);
        }
        if bytes_eq(&reg.templates[ti].id, id) {
            return Some(ti);
        }
        proof {
            assert(regs.skip(ti as int).skip(1) =~= regs.skip(ti + 1));
        }
        ti = ti + 1;
    }
    proof {
        assert(regs.skip(regs.len() as int).len() == 0);
    }
    None
}

/// Scaffolds a project: resolves the template, refuses an occupied target,
/// and yields every file to write — target-relative paths joined under the
/// target directory, the placeholder token replaced by the project name in
/// paths and contents alike. An unknown template or an occupied target
/// yields the error and no file at all.
pub fn scaffold(
    reg: &TemplateRegistry,
    template_id: &Vec<u8>,
    project_name: &Vec<u8>,
    target_dir: &Vec<u8>,
    target_nonempty: bool,
) -> (r: Result<Vec<TemplateFile>, ScaffoldError>)
    ensures
        template_lookup(reg.templates@, template_id@) is None <==> r == Err::<
            Vec<TemplateFile>,
            ScaffoldError,
        >(ScaffoldError::UnknownTemplate),
        template_lookup(reg.templates@, template_id@) is Some && target_nonempty ==> r == Err::<
            Vec<TemplateFile>,
            ScaffoldError,
        >(ScaffoldError::TargetExists),
        template_lookup(reg.templates@, template_id@) is Some && !target_nonempty ==> (
        r matches Ok(files) && files@.map_values(|f: TemplateFile| f@) == scaffold_files(
            template_lookup(reg.templates@, template_id@).unwrap(),
            project_name@,
            target_dir@,
        )),
{
    let ghost regs = reg.templates@;
    let t_idx = match find_template(reg, template_id) {
        None => {
            return Err(ScaffoldError::UnknownTemplate);
        },
        Some(k) => k,
    };
    if target_nonempty {
        return Err(ScaffoldError::TargetExists);
    }
    let template = &reg.templates[t_idx];
    let ghost tv = template@;
    let mut out: Vec<TemplateFile> = Vec::new();
    for i in 0..template.files.len()
        invariant
            template@ == tv,
            template.files@.len() == tv.files.len(),
            tv.placeholder == template.placeholder@,
            out@.len() == i,
            forall|j: int|
                0 <= j < i ==> (#[trigger] out@[j])@ == scaffold_file(
                    tv.files[j],
                    tv.placeholder,
                    project_name@,
                    target_dir@,
                ),
    {
        proof {
            assert(template@.files[i as int] == template.files@[i as int]@);
            assert(tv.files[i as int] == template.files@[i as int]@);
        }
        let f = &template.files[i];
        let new_contents = replace_bytes(&f.contents, &template.placeholder, project_name);
        let rel_path = replace_bytes(&f.path, &template.placeholder, project_name);
        let mut full_path = clone_bytes(target_dir);
        full_path.push(47u8);
        extend_bytes(&mut full_path, &rel_path);
        proof {
            assert(full_path@ =~= target_dir@ + seq![47u8] + replaced(
                tv.files[i as int].path,
                tv.placeholder,
                project_name@,
            ));
        }
        out.push(TemplateFile { path: full_path, contents: new_contents });
    }
    proof {
        assert(out@.map_values(|f: TemplateFile| f@) =~= scaffold_files(
            tv,
            project_name@,
            target_dir@,
        ));
    }
    Ok(out)
}

} // verus!
