//! Smali files and the directories that hold them.
use crate::pattern::lemma_known_signature_is_short;
use crate::pattern::lemma_replaced_by_itself;
use crate::pattern::opens_method;
use crate::pattern::Found;
use crate::smali_head::head_ends_in;
use crate::smali_head::head_is_read;
use crate::smali_head::head_of;
use crate::smali_head::law_head_ignores_method_bodies;
use crate::smali_head::parse_smali_head_reader;
use crate::smali_head::Head;
use crate::smali_head::SmaliError;
use crate::smali_head::SmaliHead;
use crate::smali_patch::body_line;
use crate::smali_patch::law_methods_replaced;
use crate::smali_patch::law_table_bodies;
use crate::smali_patch::lemma_trim_end_keeps;
use crate::smali_patch::new_lines;
use crate::smali_patch::new_method;
use crate::smali_patch::old_lines;
use crate::smali_patch::patch_smali_method;
use crate::smali_patch::patch_views;
use crate::smali_patch::patched;
use crate::smali_patch::patches_model;
use crate::smali_patch::selector_matches;
use crate::smali_patch::selects;
use crate::smali_patch::smali_patches;
use crate::smali_patch::targets;
use crate::smali_patch::ClassPatch;
use crate::smali_patch::MethodPatch;
use crate::smali_patch::SmaliPatch;
use crate::smali_tidy::all_new_pieces;
use crate::smali_tidy::fits;
use crate::smali_tidy::lemma_tidy_kept;
use crate::smali_tidy::whole_text;
use crate::smali_tidy::Piece;
use crate::text::contains_text;
use crate::text::count;
use crate::text::crlf_to_lf;
use crate::text::has_prefix;
use crate::text::join;
use crate::text::lemma_count_line_ends;
use crate::text::lemma_join_front;
use crate::text::lemma_within;
use crate::text::lf_to_crlf;
use crate::text::occurs_at;
use crate::text::same;
use crate::text::starts_with;
use crate::text::texts;
use crate::text::to_chars;
use crate::text::with_carriage_returns;
use crate::text::without_carriage_returns;
use vstd::prelude::*;
use vstd::utf8::decode_utf8;
use vstd::utf8::valid_utf8;

verus! {

/// What becomes of a Smali file.
#[derive(Debug)]
pub enum SmaliOutcome {
    /// The file stays as it is.
    Untouched,
    /// The file gets a new content; the reports say which patches were applied.
    Patched { content: String, reports: Vec<String> },
}

/// The model of a `SmaliOutcome`.
pub enum FileOutcome {
    Untouched,
    Patched { content: Seq<char>, reports: Seq<Seq<char>> },
}

impl View for SmaliOutcome {
    type V = FileOutcome;

    open spec fn view(&self) -> FileOutcome {
        match self {
            SmaliOutcome::Untouched => FileOutcome::Untouched,
            SmaliOutcome::Patched { content, reports } => FileOutcome::Patched {
                content: content@,
                reports: texts(reports@),
            },
        }
    }
}

// ---------------------------------------------------------------------------------------------
// Model
// ---------------------------------------------------------------------------------------------

/// The patches that are for the class of `head`, in order.
pub open spec fn selected(patches: Seq<ClassPatch>, head: Head) -> Seq<ClassPatch>
    decreases patches.len(),
{
    if patches.len() == 0 {
        Seq::empty()
    } else {
        let before = selected(patches.drop_last(), head);
        if selects(patches.last(), head) {
            before.push(patches.last())
        } else {
            before
        }
    }
}

/// The methods of the patches, in order.
pub open spec fn methods_of(patches: Seq<ClassPatch>) -> Seq<MethodPatch>
    decreases patches.len(),
{
    if patches.len() == 0 {
        Seq::empty()
    } else {
        methods_of(patches.drop_last()) + patches.last().methods
    }
}

/// `text` with one method after the other replaced.
pub open spec fn patched_all(text: Seq<char>, methods: Seq<MethodPatch>) -> Seq<char>
    decreases methods.len(),
{
    if methods.len() == 0 {
        text
    } else {
        patched(patched_all(text, methods.drop_last()), methods.last())
    }
}

/// The line that says that a patch was applied to a class.
pub open spec fn report(class: Seq<char>, method: Seq<char>) -> Seq<char> {
    "    "@ + class + ": Applied "@ + method + " patch"@
}

/// The reports on the patches that found a method to replace.
pub open spec fn reports_on(
    text: Seq<char>,
    methods: Seq<MethodPatch>,
    class: Seq<char>,
) -> Seq<Seq<char>>
    decreases methods.len(),
{
    if methods.len() == 0 {
        Seq::empty()
    } else {
        let before = reports_on(text, methods.drop_last(), class);
        if targets(patched_all(text, methods.drop_last()), methods.last()).len() > 0 {
            before.push(report(class, methods.last().name))
        } else {
            before
        }
    }
}

/// The text of a file as the patches see it: with bare line feeds.
pub open spec fn text_of(content: Seq<u8>, windows: bool) -> Seq<char> {
    if windows {
        crlf_to_lf(decode_utf8(content))
    } else {
        decode_utf8(content)
    }
}

/// The methods to be replaced in a class with the given head.
pub open spec fn methods_for(head: Head) -> Seq<MethodPatch> {
    methods_of(selected(patches_model(), head))
}

/// A class that a patch may be for: not an interface, and selected by one.
pub open spec fn candidate(head: Head) -> bool {
    !head.is_interface && selected(patches_model(), head).len() > 0
}

/// What becomes of a Smali file, or why it cannot be processed.
///
/// The body of a file is read only if its class is a candidate. The file gets a new content only if
/// there was a method to replace in it.
pub open spec fn outcome_of(content: Seq<u8>, windows: bool) -> Result<FileOutcome, SmaliError> {
    match head_of(content) {
        Err(e) => Err(e),
        Ok(head) => if !candidate(head) {
            Ok(FileOutcome::Untouched)
        } else if !valid_utf8(content) {
            Err(SmaliError::NotUtf8)
        } else {
            let text = text_of(content, windows);
            let methods = methods_for(head);
            let reports = reports_on(text, methods, head.name);
            if reports.len() == 0 {
                Ok(FileOutcome::Untouched)
            } else {
                let new_text = patched_all(text, methods);
                Ok(
                    FileOutcome::Patched {
                        content: if windows {
                            lf_to_crlf(new_text)
                        } else {
                            new_text
                        },
                        reports,
                    },
                )
            }
        },
    }
}

// ---------------------------------------------------------------------------------------------
// Operations
// ---------------------------------------------------------------------------------------------

/// The patches that are for the class of `head`.
fn select_patches(head: &SmaliHead) -> (r: Vec<SmaliPatch>)
    ensures
        patch_views(r@) == selected(patches_model(), head@),
{
    let mut all = smali_patches();
    let mut r: Vec<SmaliPatch> = Vec::new();
    let ghost model = patches_model();
    let ghost mut done: int = 0;
    assert(patch_views(r@) == selected(model.take(0), head@));
    assert(model.skip(0) == model);
    while all.len() > 0
        invariant
            0 <= done <= model.len(),
            patch_views(all@) == model.skip(done),
            patch_views(r@) == selected(model.take(done), head@),
        decreases all@.len(),
    {
        let ghost before = all@;
        let ghost kept = r@;
        let patch = all.remove(0);
        proof {
            assert(patch_views(before).len() == before.len());
            assert(patch_views(before)[0] == model.skip(done)[0]);
            assert(patch@ == model[done]);
            assert forall|i: int| 0 <= i < all@.len() implies patch_views(all@)[i] == model.skip(
                done + 1,
            )[i] by {
                assert(patch_views(before)[i + 1] == model.skip(done)[i + 1]);
            }
            assert(patch_views(all@) == model.skip(done + 1));
            assert(model.take(done + 1).drop_last() == model.take(done));
            assert(model.take(done + 1).last() == model[done]);
            done = done + 1;
        }
        if selector_matches(&patch, head) {
            let ghost view = patch@;
            r.push(patch);
            assert(patch_views(r@) == patch_views(kept).push(view));
        }
    }
    assert(model.take(done) == model);
    r
}

/// The patch is one of the table.
pub open spec fn of_table(patch: ClassPatch) -> bool {
    patches_model().contains(patch)
}

/// What is selected from the table is of the table.
proof fn lemma_selected_of_table(patches: Seq<ClassPatch>, head: Head)
    requires
        forall|i: int| 0 <= i < patches.len() ==> #[trigger] of_table(patches[i]),
    ensures
        forall|i: int|
            0 <= i < selected(patches, head).len() ==> #[trigger] of_table(
                selected(patches, head)[i],
            ),
    decreases patches.len(),
{
    if patches.len() > 0 {
        let front = patches.drop_last();
        assert forall|i: int| 0 <= i < front.len() implies #[trigger] of_table(front[i]) by {
            assert(of_table(patches[i]));
        }
        lemma_selected_of_table(front, head);
        assert(of_table(patches[patches.len() - 1]));
        let before = selected(front, head);
        let all = selected(patches, head);
        assert forall|i: int| 0 <= i < all.len() implies #[trigger] of_table(all[i]) by {
            if i < before.len() {
                assert(of_table(before[i]));
            }
        }
    }
}

/// The line that says that a patch was applied to a class.
fn report_line(class: &str, method: &str) -> (r: String)
    ensures
        r@ == report(class@, method@),
{
    "    ".to_string().concat(class).concat(": Applied ").concat(method).concat(" patch")
}

/// No method of the list starts anywhere in `text`.
pub open spec fn no_method_opens(text: Seq<char>, methods: Seq<MethodPatch>) -> bool {
    forall|k: int, i: int|
        0 <= k < methods.len() ==> !#[trigger] opens_method(text, methods[k].signature, i)
}

/// Replaces the methods of the patches in `text`. The reports say which patches found one.
fn patch_text(text: String, patches: &Vec<SmaliPatch>, class: &str) -> (r: Result<
    (String, Vec<String>),
    SmaliError,
>)
    requires
        forall|i: int|
            0 <= i < patches@.len() ==> #[trigger] of_table(patch_views(patches@)[i]),
    ensures
        r matches Ok((new_text, reports)) && {
            let methods = methods_of(patch_views(patches@));
            &&& new_text@ == patched_all(text@, methods)
            &&& texts(reports@) == reports_on(text@, methods, class@)
            &&& reports@.len() == 0 ==> no_method_opens(text@, methods) && new_text@ == text@
            &&& count(new_text@, '\n') >= count(text@, '\n') + reports@.len()
            &&& forall|pieces: Seq<Piece>| #[trigger]
                fits(pieces, text@) ==> new_text@ == whole_text(all_new_pieces(pieces, methods))
        },
{
    let ghost start = text@;
    let ghost views = patch_views(patches@);
    let mut text = text;
    let mut reports: Vec<String> = Vec::new();
    assert(texts(reports@) == Seq::<Seq<char>>::empty());
    for i in 0..patches.len()
        invariant
            views == patch_views(patches@),
            forall|i: int| 0 <= i < patches@.len() ==> #[trigger] of_table(views[i]),
            text@ == patched_all(start, methods_of(views.take(i as int))),
            texts(reports@) == reports_on(start, methods_of(views.take(i as int)), class@),
            reports@.len() == 0 ==> text@ == start,
            count(text@, '\n') >= count(start, '\n') + reports@.len(),
            reports@.len() == 0 ==> no_method_opens(start, methods_of(views.take(i as int))),
            forall|pieces: Seq<Piece>| #[trigger]
                fits(pieces, start) ==> fits(
                    all_new_pieces(pieces, methods_of(views.take(i as int))),
                    text@,
                ),
    {
        let ghost before = methods_of(views.take(i as int));
        let ghost here = views[i as int].methods;
        assert(views.take(i + 1).drop_last() == views.take(i as int));
        assert(before + here.take(0) == before);
        let patch = &patches[i];
        assert(here == patch@.methods);
        assert(of_table(views[i as int]));
        for k in 0..patch.methods.len()
            invariant
                views == patch_views(patches@),
                patch@ == views[i as int],
                here == patch@.methods,
                of_table(patch@),
                text@ == patched_all(start, before + here.take(k as int)),
                texts(reports@) == reports_on(start, before + here.take(k as int), class@),
                reports@.len() == 0 ==> text@ == start,
                count(text@, '\n') >= count(start, '\n') + reports@.len(),
                reports@.len() == 0 ==> no_method_opens(start, before + here.take(k as int)),
                forall|pieces: Seq<Piece>| #[trigger]
                    fits(pieces, start) ==> fits(
                        all_new_pieces(pieces, before + here.take(k as int)),
                        text@,
                    ),
        {
            let ghost done = before + here.take(k as int);
            let ghost more = before + here.take(k + 1);
            let ghost kept = reports@;
            let ghost current = text@;
            let method = &patch.methods[k];
            proof {
                let t = choose|t: int| 0 <= t < patches_model().len() && patch@ == patches_model()[t];
                law_table_bodies(t, k as int);
                lemma_known_signature_is_short(patches_model()[t].methods[k as int].signature);
                assert(more.drop_last() == done);
                assert(more.last() == here[k as int]);
                assert(method@ == here[k as int]);
            }
            match patch_smali_method(text.as_str(), method) {
                Ok((new_text, changed)) => {
                    proof {
                        assert forall|pieces: Seq<Piece>| #[trigger] fits(pieces, start) implies fits(
                            all_new_pieces(pieces, more),
                            new_text@,
                        ) by {
                            let mid = all_new_pieces(pieces, done);
                            assert(fits(mid, current));
                            lemma_tidy_kept(mid, method@);
                        }
                    }
                    if changed {
                        let line = report_line(class, method.name);
                        let ghost added = line@;
                        reports.push(line);
                        text = new_text;
                        assert(texts(reports@) == texts(kept).push(added));
                    } else {
                        assert forall|a: int, b: int| 0 <= a < more.len() && kept.len()
                            == 0 implies !#[trigger] opens_method(start, more[a].signature, b) by {
                            if a < done.len() {
                                assert(more[a] == done[a]);
                            }
                        }
                    }
                },
                Err(e) => {
                    return Err(e);
                },
            }
        }
        assert(here.take(here.len() as int) == here);
    }
    assert(views.take(views.len() as int) == views);
    Ok((text, reports))
}

/// The file gets the content `new`, or stays as it is where that does not differ from `text`.
pub open spec fn is_patched(
    r: Result<SmaliOutcome, SmaliError>,
    text: Seq<char>,
    new: Seq<char>,
    windows: bool,
) -> bool {
    match r {
        Ok(SmaliOutcome::Patched { content, .. }) => content@ == if windows {
            lf_to_crlf(new)
        } else {
            new
        },
        Ok(SmaliOutcome::Untouched) => new == text,
        Err(_) => false,
    }
}

/// Finds out what becomes of a Smali file with the given content. On Windows lines end in CR LF.
///
/// A candidate with a method of its patches in it is always patched, and what is patched differs from what
/// was there. In one of the usual form all
/// methods of its patches get new bodies and all else stays.
pub fn process_smali_file(content: &[u8], windows: bool) -> (r: Result<SmaliOutcome, SmaliError>)
    ensures
        match outcome_of(content@, windows) {
            Ok(outcome) => r matches Ok(o) && o@ == outcome,
            Err(e) => r matches Err(found) && found == e,
        },
        (head_of(content@) matches Ok(head) && candidate(head) && valid_utf8(content@)
            && !no_method_opens(text_of(content@, windows), methods_for(head)))
            ==> r matches Ok(SmaliOutcome::Patched { .. }),
        r matches Ok(SmaliOutcome::Patched { content: new, .. }) ==> {
            &&& new@ != decode_utf8(content@)
            &&& count(new@, '\n') > count(decode_utf8(content@), '\n')
        },
        (head_of(content@) matches Ok(head) && candidate(head) && valid_utf8(content@)) ==> {
            let text = text_of(content@, windows);
            forall|pieces: Seq<Piece>| #[trigger]
                fits(pieces, text) ==> is_patched(
                    r,
                    text,
                    whole_text(all_new_pieces(pieces, methods_for(head_of(content@)->Ok_0))),
                    windows,
                )
        },
{
    let head = match parse_smali_head_reader(content) {
        Ok(head) => head,
        Err(e) => {
            return Err(e);
        },
    };
    if head.is_interface {
        return Ok(SmaliOutcome::Untouched);
    }
    let patches = select_patches(&head);
    if patches.len() == 0 {
        assert(selected(patches_model(), head@).len() == patch_views(patches@).len());
        return Ok(SmaliOutcome::Untouched);
    }
    assert(selected(patches_model(), head@).len() == patches@.len());
    let original = match core::str::from_utf8(content) {
        Ok(text) => text,
        Err(_) => {
            return Err(SmaliError::NotUtf8);
        },
    };
    let text = if windows {
        without_carriage_returns(to_chars(original).as_slice())
    } else {
        original.to_string()
    };
    proof {
        lemma_selected_of_table(patches_model(), head@);
    }
    match patch_text(text, &patches, head.name.as_str()) {
        Ok((new_text, reports)) => {
            assert(texts(reports@).len() == reports@.len());
            if reports.len() == 0 {
                return Ok(SmaliOutcome::Untouched);
            }
            proof {
                lemma_count_line_ends(original@);
                lemma_count_line_ends(new_text@);
            }
            let content = if windows {
                with_carriage_returns(to_chars(new_text.as_str()).as_slice())
            } else {
                new_text
            };
            Ok(SmaliOutcome::Patched { content, reports })
        },
        Err(e) => Err(e),
    }
}

/// Whether the front of a file is enough to know that the file stays as it is: its head ends there, and
/// no patch is for its class.
pub fn stays_untouched(front: &[u8]) -> (r: bool)
    ensures
        r == (head_ends_in(front@) && (head_of(front@) matches Ok(head) && !candidate(head))),
{
    if !head_is_read(front) {
        return false;
    }
    match parse_smali_head_reader(front) {
        Ok(head) => {
            if head.is_interface {
                return true;
            }
            let patches = select_patches(&head);
            assert(selected(patches_model(), head@).len() == patch_views(patches@).len());
            patches.len() == 0
        },
        Err(_) => false,
    }
}

// ---------------------------------------------------------------------------------------------
// Directories
// ---------------------------------------------------------------------------------------------

/// An entry of a directory. The name is absent if it is not valid Unicode.
#[derive(Debug)]
pub struct DirectoryEntry {
    pub name: Option<String>,
    pub is_dir: bool,
}

/// The entry is a directory of Smali files.
pub open spec fn is_root(entry: DirectoryEntry) -> bool {
    entry.is_dir && (entry.name matches Some(name) && has_prefix(name@, "smali"@))
}

/// The names of the directories of Smali files among the entries.
pub open spec fn root_names(entries: Seq<DirectoryEntry>) -> Seq<Seq<char>>
    decreases entries.len(),
{
    if entries.len() == 0 {
        Seq::empty()
    } else {
        let before = root_names(entries.drop_last());
        if is_root(entries.last()) {
            before.push(entries.last().name->0@)
        } else {
            before
        }
    }
}

/// `a` comes before `b` in the order of their characters.
pub open spec fn precedes(a: Seq<char>, b: Seq<char>) -> bool
    decreases a.len(),
{
    if b.len() == 0 {
        false
    } else if a.len() == 0 {
        true
    } else if a[0] != b[0] {
        a[0] < b[0]
    } else {
        precedes(a.skip(1), b.skip(1))
    }
}

/// No entry comes before an earlier one.
pub open spec fn sorted(list: Seq<Seq<char>>) -> bool {
    forall|i: int, j: int| 0 <= i < j < list.len() ==> !precedes(#[trigger] list[j], #[trigger] list[i])
}

proof fn lemma_precedes_transitive(a: Seq<char>, b: Seq<char>, c: Seq<char>)
    requires
        !precedes(b, a),
        !precedes(c, b),
    ensures
        !precedes(c, a),
    decreases a.len(),
{
    if a.len() > 0 && b.len() > 0 && c.len() > 0 && a[0] == b[0] && b[0] == c[0] {
        lemma_precedes_transitive(a.skip(1), b.skip(1), c.skip(1));
    }
}

proof fn lemma_precedes_asymmetric(a: Seq<char>, b: Seq<char>)
    requires
        precedes(a, b),
    ensures
        !precedes(b, a),
    decreases a.len(),
{
    if a.len() > 0 && b.len() > 0 && a[0] == b[0] {
        lemma_precedes_asymmetric(a.skip(1), b.skip(1));
    }
}

/// Whether `a` comes before `b`.
fn comes_first(a: &str, b: &str) -> (r: bool)
    ensures
        r == precedes(a@, b@),
{
    let x = to_chars(a);
    let y = to_chars(b);
    let mut i: usize = 0;
    assert(a@.skip(0) == a@);
    assert(b@.skip(0) == b@);
    while i < x.len() && i < y.len()
        invariant
            x@ == a@,
            y@ == b@,
            i <= x@.len(),
            i <= y@.len(),
            precedes(a@, b@) == precedes(a@.skip(i as int), b@.skip(i as int)),
        decreases x@.len() - i,
    {
        if x[i] != y[i] {
            return x[i] < y[i];
        }
        assert(a@.skip(i as int).skip(1) == a@.skip(i + 1));
        assert(b@.skip(i as int).skip(1) == b@.skip(i + 1));
        i = i + 1;
    }
    i < y.len()
}

/// Puts `name` into the sorted list at its place.
fn insert_sorted(list: &mut Vec<String>, name: String)
    requires
        sorted(texts(old(list)@)),
    ensures
        sorted(texts(final(list)@)),
        texts(final(list)@).to_multiset() == texts(old(list)@).to_multiset().insert(name@),
{
    let ghost before = texts(list@);
    let mut at: usize = list.len();
    while at > 0 && comes_first(name.as_str(), list[at - 1].as_str())
        invariant
            before == texts(list@),
            at <= list@.len(),
            forall|j: int| at <= j < list@.len() ==> precedes(name@, #[trigger] before[j]),
        decreases at,
    {
        at = at - 1;
    }
    let ghost word = name@;
    list.insert(at, name);
    proof {
        let after = texts(list@);
        assert(after == before.insert(at as int, word));
        vstd::seq_lib::to_multiset_insert(before, at as int, word);
        assert forall|i: int, j: int| 0 <= i < j < after.len() implies !precedes(
            #[trigger] after[j],
            #[trigger] after[i],
        ) by {
            if i < at && j == at {
                assert(after[i] == before[i]);
                if i < at - 1 {
                    assert(!precedes(before[at - 1], before[i]));
                    lemma_precedes_transitive(before[i], before[at - 1], word);
                }
            } else if i < at && j > at {
                assert(after[i] == before[i]);
                assert(after[j] == before[j - 1]);
            } else if i == at {
                assert(after[j] == before[j - 1]);
                lemma_precedes_asymmetric(word, before[j - 1]);
            } else if j < at {
                assert(after[i] == before[i]);
                assert(after[j] == before[j]);
            } else {
                assert(after[i] == before[i - 1]);
                assert(after[j] == before[j - 1]);
            }
        }
    }
}

/// The names of the directories of Smali files among the entries of a directory, sorted.
pub fn smali_roots(entries: &Vec<DirectoryEntry>) -> (r: Vec<String>)
    ensures
        sorted(texts(r@)),
        texts(r@).to_multiset() == root_names(entries@).to_multiset(),
{
    let mut r: Vec<String> = Vec::new();
    assert(texts(r@) == root_names(entries@.take(0)));
    for i in 0..entries.len()
        invariant
            sorted(texts(r@)),
            texts(r@).to_multiset() == root_names(entries@.take(i as int)).to_multiset(),
    {
        proof {
            assert(entries@.take(i + 1).drop_last() == entries@.take(i as int));
            root_names(entries@.take(i as int)).to_multiset_ensures();
        }
        if entries[i].is_dir {
            if let Some(name) = &entries[i].name {
                if starts_with(name.as_str(), "smali") {
                    insert_sorted(&mut r, name.clone());
                }
            }
        }
    }
    assert(entries@.take(entries@.len() as int) == entries@);
    r
}

/// Whether a file is looked at for methods to replace: a regular file with the extension `smali`.
/// The extension is absent if there is none or it is not valid Unicode.
pub fn is_smali_file(is_file: bool, extension: Option<&str>) -> (r: bool)
    ensures
        r == (is_file && (extension matches Some(e) && e@ == "smali"@)),
{
    match extension {
        Some(e) => is_file && same(e, "smali"),
        None => false,
    }
}

/// Whether a method was replaced anywhere, from whether it was in each of the files that were looked
/// at.
pub fn disable_certificate_pinning(patched: &Vec<bool>) -> (r: bool)
    ensures
        r == patched@.contains(true),
{
    for i in 0..patched.len()
        invariant
            forall|k: int| 0 <= k < i ==> !patched@[k],
    {
        if patched[i] {
            return true;
        }
    }
    false
}

// ---------------------------------------------------------------------------------------------
// Laws
// ---------------------------------------------------------------------------------------------

/// A file whose class no patch is for stays as it is, whatever follows the line of its first method;
/// that need not be valid UTF-8.
pub proof fn law_other_classes_untouched(front: Seq<u8>, rest: Seq<u8>, windows: bool)
    requires
        head_ends_in(front),
        head_of(front) matches Ok(head) && !candidate(head),
    ensures
        outcome_of(front + rest, windows) == Ok::<FileOutcome, SmaliError>(FileOutcome::Untouched),
{
    law_head_ignores_method_bodies(front, rest, Seq::empty());
    assert(front + Seq::<u8>::empty() == front);
}

/// A file whose class is an interface stays as it is.
pub proof fn law_interfaces_untouched(content: Seq<u8>, windows: bool)
    requires
        head_of(content) matches Ok(head) && head.is_interface,
    ensures
        outcome_of(content, windows) == Ok::<FileOutcome, SmaliError>(FileOutcome::Untouched),
{
}

/// A carriage return stands before position `i`.
pub open spec fn after_return(s: Seq<char>, i: int) -> bool {
    i > 0 && s[i - 1] == '\r'
}

/// The line ends of a text in which every line feed follows a carriage return survive the way to
/// bare line feeds and back.
pub proof fn law_line_ends_return(s: Seq<char>)
    requires
        forall|i: int| 0 <= i < s.len() && s[i] == '\n' ==> #[trigger] after_return(s, i),
    ensures
        lf_to_crlf(crlf_to_lf(s)) == s,
    decreases s.len(),
{
    if s.len() == 0 {
    } else if s.len() >= 2 && s[0] == '\r' && s[1] == '\n' {
        let rest = s.skip(2);
        assert forall|i: int| 0 <= i < rest.len() && rest[i] == '\n' implies #[trigger] after_return(
            rest,
            i,
        ) by {
            assert(after_return(s, i + 2));
        }
        law_line_ends_return(rest);
        let t = crlf_to_lf(s);
        assert(t == seq!['\n'] + crlf_to_lf(rest));
        assert(t.skip(1) == crlf_to_lf(rest));
        assert(seq!['\r', '\n'] + rest == s);
    } else {
        assert(s[0] != '\n') by {
            if s[0] == '\n' {
                assert(after_return(s, 0));
            }
        }
        let rest = s.skip(1);
        assert forall|i: int| 0 <= i < rest.len() && rest[i] == '\n' implies #[trigger] after_return(
            rest,
            i,
        ) by {
            assert(after_return(s, i + 1));
        }
        law_line_ends_return(rest);
        let t = crlf_to_lf(s);
        assert(t == seq![s[0]] + crlf_to_lf(rest));
        assert(t.skip(1) == crlf_to_lf(rest));
        assert(seq![s[0]] + rest == s);
    }
}

/// The new text of a method holds the note.
proof fn lemma_new_method_has_note(m: Found, lines: Seq<Seq<char>>)
    ensures
        contains_text(
            new_method(m, lines),
            "# inserted by apk-mitm to disable certificate pinning"@,
        ),
{
    let note = "# inserted by apk-mitm to disable certificate pinning"@;
    reveal_strlit("    ");
    reveal_strlit("# inserted by apk-mitm to disable certificate pinning");
    let whole = "    "@ + note;
    lemma_trim_end_keeps(whole, Seq::empty());
    assert(whole + Seq::<char>::empty() == whole);
    let line = body_line(note);
    assert(line.take(whole.len() as int) == whole);
    let pieces = new_lines(lines) + old_lines(m.groups[2]->0);
    let body = join(pieces, '\n');
    assert(pieces[0] == line);
    lemma_join_front(pieces, '\n');
    assert(body.subrange(0, line.len() as int) == line);
    assert forall|k: int| 0 <= k < note.len() implies #[trigger] body[4 + k] == note[k] by {
        assert(body.subrange(0, line.len() as int)[4 + k] == line[4 + k]);
        assert(line.take(whole.len() as int)[4 + k] == whole[4 + k]);
    }
    let found = body.subrange(4, 4 + note.len() as int);
    assert forall|k: int| 0 <= k < note.len() implies found[k] == note[k] by {
        assert(found[k] == body[4 + k]);
    }
    assert(found == note);
    assert(occurs_at(body, note, 4));
    let front = m.groups[1]->0 + seq!['\n'];
    let back = seq!['\n'] + m.groups[3]->0;
    lemma_within(front, body, back, note);
    assert(front + body + back == new_method(m, lines));
}

/// A text in which a method was replaced holds the note, whatever is replaced after it.
proof fn lemma_note_stands(text: Seq<char>, methods: Seq<MethodPatch>, class: Seq<char>)
    requires
        reports_on(text, methods, class).len() > 0,
    ensures
        contains_text(
            patched_all(text, methods),
            "# inserted by apk-mitm to disable certificate pinning"@,
        ),
    decreases methods.len(),
{
    let note = "# inserted by apk-mitm to disable certificate pinning"@;
    let before = patched_all(text, methods.drop_last());
    let list = targets(before, methods.last());
    if list.len() > 0 {
        let new = new_method(list[0], methods.last().lines);
        law_methods_replaced(before, methods.last(), 0);
        lemma_new_method_has_note(list[0], methods.last().lines);
        let all = patched_all(text, methods);
        let i = choose|i: int| occurs_at(all, new, i);
        let front = all.take(i);
        let back = all.skip(i + new.len());
        lemma_within(front, new, back, note);
        assert(front + new + back == all) by {
            assert(all.subrange(i, i + new.len()) == new);
        }
    } else {
        lemma_note_stands(text, methods.drop_last(), class);
        lemma_replaced_by_itself(before, list, Seq::empty());
        assert(Seq::new(list.len(), |i: int| new_method(list[i], methods.last().lines)) == Seq::<
            Seq<char>,
        >::empty());
    }
}

/// What stands on one line stands there with other line ends, too.
proof fn lemma_line_ends_keep(s: Seq<char>, what: Seq<char>, i: int)
    requires
        occurs_at(s, what, i),
        !what.contains('\n'),
    ensures
        contains_text(lf_to_crlf(s), what),
        i == 0 ==> occurs_at(lf_to_crlf(s), what, 0),
    decreases s.len(),
{
    let all = lf_to_crlf(s);
    assert(what == s.subrange(i, i + what.len()));
    if what.len() == 0 {
        assert(all.subrange(0, 0) == what);
        assert(occurs_at(all, what, 0));
    } else if i > 0 {
        let rest = s.skip(1);
        assert(rest.subrange(i - 1, i - 1 + what.len()) == what);
        lemma_line_ends_keep(rest, what, i - 1);
        let front = if s[0] == '\n' {
            seq!['\r', '\n']
        } else {
            seq![s[0]]
        };
        lemma_within(front, lf_to_crlf(rest), Seq::empty(), what);
        assert(front + lf_to_crlf(rest) + Seq::<char>::empty() == all);
    } else {
        assert(what[0] == s[0]);
        let rest = s.skip(1);
        let tail = what.skip(1);
        assert(rest.subrange(0, tail.len() as int) == tail);
        assert forall|k: int| 0 <= k < tail.len() implies tail[k] != '\n' by {
            assert(what[k + 1] != '\n');
        }
        lemma_line_ends_keep(rest, tail, 0);
        assert(all == seq![s[0]] + lf_to_crlf(rest));
        assert(all.subrange(0, what.len() as int) == what) by {
            assert forall|k: int| 0 < k < what.len() implies all[k] == what[k] by {
                assert(lf_to_crlf(rest).subrange(0, tail.len() as int)[k - 1] == tail[k - 1]);
            }
        }
        assert(occurs_at(all, what, 0));
    }
}

/// A file that is patched says so.
pub proof fn law_patched_files_say_so(content: Seq<u8>, windows: bool)
    requires
        outcome_of(content, windows) matches Ok(FileOutcome::Patched { .. }),
    ensures
        outcome_of(content, windows) matches Ok(FileOutcome::Patched { content, .. })
            && contains_text(content, "# inserted by apk-mitm to disable certificate pinning"@),
{
    let note = "# inserted by apk-mitm to disable certificate pinning"@;
    let head = head_of(content)->Ok_0;
    let text = text_of(content, windows);
    let methods = methods_for(head);
    lemma_note_stands(text, methods, head.name);
    let new_text = patched_all(text, methods);
    let i = choose|i: int| occurs_at(new_text, note, i);
    reveal_strlit("# inserted by apk-mitm to disable certificate pinning");
    lemma_line_ends_keep(new_text, note, i);
}

} // verus!
