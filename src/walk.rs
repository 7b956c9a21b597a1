//! The dependency walker. One walk minifies a root template and, first, every
//! component that it references, directly or not. The walker decides; the
//! caller performs each action it asks for (resolving a path, reading,
//! writing and copying files, running the minifier) and hands back what came
//! of it as the next event.
//!
//! A component reached again within one walk is not processed again. A
//! component reached again while its own processing is still under way is a
//! reference cycle, and the walk fails: no directive is ever left to reference
//! a minified copy that does not exist yet.
use vstd::prelude::*;
use crate::bytes::{copy_of, same_bytes};
use crate::cache::{GlobalCache, RunCache};
use crate::directive::{
    Directive,
    slice_bytes,
    scan,
    rewrite,
    spans_of,
    directives_of,
    rewritten,
    views_of,
    lemma_scan_placed,
};
use crate::minifier::{MinifyOptions, MinifyError, ProcessReport, command_line, deep, outcome};
use crate::paths::{output_for, sibling_path, shadow_path, sibling};

verus! {

/// Why a walk failed.
#[derive(Debug, PartialEq, Eq)]
pub enum WalkError {
    /// A referenced template path does not resolve to a file.
    Unresolved(Vec<u8>),
    /// A template references itself, directly or through other components.
    Cycle(Vec<u8>),
    /// A cached minified copy could not be copied to this path.
    CopyFailed(Vec<u8>),
    /// The template at this path could not be read.
    ReadFailed(Vec<u8>),
    /// The rewritten template could not be written to this path.
    WriteFailed(Vec<u8>),
    /// The minifier failed on the file at this path.
    MinifyFailed(Vec<u8>, MinifyError),
    /// The event does not answer the action that was asked for.
    UnexpectedEvent,
}

/// What came of the last action.
#[derive(Debug)]
pub enum Event {
    /// The canonical identity of the path, or `None` where it does not resolve.
    Resolved(Option<Vec<u8>>),
    /// Whether the file exists.
    Exists(bool),
    /// Whether the copy succeeded.
    Copied(bool),
    /// The file's contents, or `None` where it could not be read.
    Read(Option<Vec<u8>>),
    /// Whether the write succeeded; parent directories are created as needed.
    Written(bool),
    /// How the minifier run went.
    Minified(ProcessReport),
}

/// What the walker asks its caller to do next.
#[derive(Debug)]
pub enum Action {
    /// Canonicalize this path and answer `Resolved`.
    Resolve(Vec<u8>),
    /// Check that this file exists and answer `Exists`.
    CheckExists(Vec<u8>),
    /// Copy the first file to the second, creating directories as needed, and answer `Copied`.
    Copy(Vec<u8>, Vec<u8>),
    /// Read this file and answer `Read`.
    Read(Vec<u8>),
    /// Write the text to the path and answer `Written`.
    Write(Vec<u8>, Vec<u8>),
    /// Run this command line, which minifies the given file in place, and answer `Minified`.
    Minify(Vec<Vec<u8>>),
    /// The walk succeeded: the minified root is at this path.
    Finish(Vec<u8>),
    /// The walk failed; the reason is kept by the walker.
    Fail,
}

/// A template whose components are being walked.
pub struct Frame {
    pub source: Vec<u8>,
    pub id: Vec<u8>,
    pub out: Vec<u8>,
    pub text: Vec<u8>,
    pub refs: Vec<Directive>,
    /// Where the minified copies of the components referenced so far lie.
    pub outs: Vec<Vec<u8>>,
    /// The identities of those components.
    pub child_ids: Ghost<Seq<Seq<u8>>>,
}

/// What the walker waits for.
pub enum Pending {
    Resolve { source: Vec<u8> },
    Exists { source: Vec<u8>, id: Vec<u8>, out: Vec<u8>, cached: Vec<u8> },
    Copy { id: Vec<u8>, out: Vec<u8> },
    Read { source: Vec<u8>, id: Vec<u8>, out: Vec<u8> },
    Write,
    Minify,
    Finished { out: Vec<u8> },
    Failed { error: WalkError },
}

/// One walk in progress. `stack` holds the templates whose components are
/// being walked, innermost last; `run` the templates this walk has visited.
pub struct Walker {
    /// The shadow workspace root under which minified copies go.
    pub shadow: Vec<u8>,
    pub options: MinifyOptions,
    pub run: RunCache,
    pub stack: Vec<Frame>,
    pub pending: Pending,
    /// The templates minified by this walk, in order.
    pub minified: Ghost<Seq<Seq<u8>>>,
}

pub open spec fn ids_of(st: Seq<Frame>) -> Seq<Seq<u8>> {
    st.map_values(|f: Frame| f.id@)
}

pub open spec fn frame_ok(f: Frame, shadow: Seq<u8>) -> bool {
    &&& spans_of(f.refs@) == directives_of(f.text@)
    &&& f.outs.len() <= f.refs.len()
    &&& f.out@ == shadow_path(shadow, f.id@)
    &&& f.child_ids@.len() == f.outs.len()
    &&& forall|k: int| 0 <= k < f.outs.len() ==> #[trigger] f.outs@[k]@ == shadow_path(shadow, f.child_ids@[k])
}

/// The text written for a template before it is minified: its own text with
/// each directive made to reference the minified copy of its component.
pub open spec fn prepared_text(text: Seq<u8>, child_ids: Seq<Seq<u8>>, shadow: Seq<u8>) -> Seq<u8> {
    rewritten(text, directives_of(text), child_ids.map_values(|id: Seq<u8>| shadow_path(shadow, id)))
}

/// The path of the next component that `f` references: the name in its next
/// directive, taken from the directory of `f`'s source.
pub open spec fn next_component(f: Frame) -> Seq<u8> {
    let d = directives_of(f.text@)[f.outs.len() as int];
    sibling(f.source@, f.text@.subrange(d.name_start, d.name_end))
}

/// What `w` asks for once its top frame moves on: the path of its next
/// component, or, once all its components are done, the write of its
/// rewritten text to its minified copy.
pub open spec fn moves_on(w: Walker, a: Action) -> bool {
    if w.top().outs.len() < w.top().refs.len() {
        &&& (a matches Action::Resolve(p) && p@ == next_component(w.top()))
        &&& (w.pending matches Pending::Resolve { source } && source@ == next_component(w.top()))
    } else {
        &&& (a matches Action::Write(p, t) && p@ == w.top().out@ && t@ == prepared_text(
            w.top().text@,
            w.top().child_ids@,
            w.shadow@,
        ))
        &&& w.pending is Write
    }
}

/// `w` has handed on the finished template `id`, whose minified copy now
/// exists, from the frames `base`: the template below records that copy and
/// moves on; with no template below, the walk ends with that copy as its result.
pub open spec fn hands_on(base: Seq<Frame>, w: Walker, a: Action, id: Seq<u8>) -> bool {
    if base.len() == 0 {
        &&& w.stack.len() == 0
        &&& (a matches Action::Finish(p) && p@ == shadow_path(w.shadow@, id))
        &&& (w.pending matches Pending::Finished { out } && out@ == shadow_path(w.shadow@, id))
    } else {
        &&& w.stack.len() == base.len()
        &&& forall|i: int| 0 <= i < base.len() - 1 ==> #[trigger] w.stack@[i] == base[i]
        &&& w.top().source == base.last().source
        &&& w.top().id == base.last().id
        &&& w.top().out == base.last().out
        &&& w.top().text == base.last().text
        &&& w.top().refs == base.last().refs
        &&& views_of(w.top().outs@) == views_of(base.last().outs@).push(shadow_path(w.shadow@, id))
        &&& w.top().child_ids@ == base.last().child_ids@.push(id)
        &&& moves_on(w, a)
    }
}

/// Whether the walker `w`, given `ev`, ends the walk in failure: the event does
/// not answer what was asked, a path does not resolve, a component is reached
/// again while it is itself being processed, a read, write or copy failed, or
/// the minifier failed under the walk's strategy. A failed walk stays failed.
pub open spec fn fails_on(w: Walker, ev: Event) -> bool {
    match w.pending {
        Pending::Failed { .. } => true,
        Pending::Finished { .. } => false,
        Pending::Resolve { .. } => match ev {
            Event::Resolved(Some(id)) => w.run@.contains(id@) && ids_of(w.stack@).contains(id@),
            _ => true,
        },
        Pending::Exists { .. } => !(ev is Exists),
        Pending::Copy { .. } => match ev {
            Event::Copied(ok) => !ok,
            _ => true,
        },
        Pending::Read { .. } => match ev {
            Event::Read(text) => text is None,
            _ => true,
        },
        Pending::Write => match ev {
            Event::Written(ok) => !ok,
            _ => true,
        },
        Pending::Minify => match ev {
            Event::Minified(rep) => outcome(w.options.minifier, rep.started, rep.stderr@) is Err,
            _ => true,
        },
    }
}

impl Walker {
    pub open spec fn top(&self) -> Frame {
        self.stack@.last()
    }

    pub open spec fn is_terminal(&self) -> bool {
        self.pending is Finished || self.pending is Failed
    }

    pub open spec fn wf(&self) -> bool {
        self.core_wf() && self.pending_ok()
    }

    /// The caches and the frames agree: every template on the stack or
    /// minified has been visited, none is on the stack twice, and none that
    /// was minified is still on the stack.
    pub open spec fn core_wf(&self) -> bool {
        &&& self.run.wf()
        &&& forall|i: int| 0 <= i < self.stack.len() ==> frame_ok(#[trigger] self.stack@[i], self.shadow@)
        &&& forall|i: int| 0 <= i < self.stack.len() ==> self.run@.contains(#[trigger] ids_of(self.stack@)[i])
        &&& ids_of(self.stack@).no_duplicates()
        &&& self.minified@.no_duplicates()
        &&& forall|i: int| 0 <= i < self.minified@.len() ==> self.run@.contains(#[trigger] self.minified@[i])
        &&& forall|x: Seq<u8>| self.minified@.contains(x) ==> !#[trigger] ids_of(self.stack@).contains(x)
        &&& forall|i: int| 0 <= i < self.stack.len() - 1 ==> (#[trigger] self.stack@[i]).outs.len() < self.stack@[i].refs.len()
    }

    /// What the walker waits for fits the stack and the caches.
    pub open spec fn pending_ok(&self) -> bool {
        &&& match self.pending {
            Pending::Resolve { .. } | Pending::Exists { .. } | Pending::Copy { .. } | Pending::Read { .. } =>
                self.stack.len() > 0 ==> self.top().outs.len() < self.top().refs.len(),
            Pending::Write | Pending::Minify => self.stack.len() > 0 && self.top().outs.len() == self.top().refs.len(),
            _ => true,
        }
        &&& match self.pending {
            Pending::Exists { id, out, .. } => out@ == shadow_path(self.shadow@, id@) && !self.run@.contains(id@),
            Pending::Copy { id, out } => out@ == shadow_path(self.shadow@, id@),
            Pending::Read { id, out, .. } => {
                &&& out@ == shadow_path(self.shadow@, id@)
                &&& self.run@.contains(id@)
                &&& !ids_of(self.stack@).contains(id@)
                &&& !self.minified@.contains(id@)
            },
            _ => true,
        }
    }
}

proof fn lemma_ids_push(st: Seq<Frame>, f: Frame)
    ensures
        ids_of(st.push(f)) == ids_of(st).push(f.id@),
{
    assert(ids_of(st.push(f)) =~= ids_of(st).push(f.id@));
}

proof fn lemma_ids_drop_last(st: Seq<Frame>)
    requires
        st.len() > 0,
    ensures
        ids_of(st.drop_last()) == ids_of(st).drop_last(),
{
    assert(ids_of(st.drop_last()) =~= ids_of(st).drop_last());
}

proof fn lemma_pop_keeps_apart(ids: Seq<Seq<u8>>, done: Seq<Seq<u8>>)
    requires
        ids.len() > 0,
        ids.no_duplicates(),
        forall|x: Seq<u8>| done.contains(x) ==> !#[trigger] ids.contains(x),
    ensures
        forall|x: Seq<u8>| done.push(ids.last()).contains(x) ==> !#[trigger] ids.drop_last().contains(x),
{
    assert forall|x: Seq<u8>| done.push(ids.last()).contains(x) implies !#[trigger] ids.drop_last().contains(x) by {
        if ids.drop_last().contains(x) {
            let i = choose|i: int| 0 <= i < ids.drop_last().len() && ids.drop_last()[i] == x;
            assert(ids[i] == x);
            assert(ids.contains(x));
            let j = choose|j: int| 0 <= j < done.push(ids.last()).len() && done.push(ids.last())[j] == x;
            if j < done.len() {
                assert(done[j] == x);
                assert(done.contains(x));
            } else {
                assert(ids[ids.len() - 1] == x);
                assert(ids[i] != ids[ids.len() - 1]);
            }
        }
    }
}

impl Walker {
    /// Starts a walk of the template at `root`, whose minified copies go
    /// under `shadow`. The first action resolves the root's path.
    pub fn start(root: Vec<u8>, shadow: Vec<u8>, options: MinifyOptions) -> (r: (Walker, Action))
        ensures
            r.0.wf(),
            r.0.stack.len() == 0,
            r.0.run@ == Set::<Seq<u8>>::empty(),
            r.0.minified@ == Seq::<Seq<u8>>::empty(),
            r.0.shadow@ == shadow@,
            r.0.options == options,
            r.0.pending matches Pending::Resolve { source } && source@ == root@,
            r.1 matches Action::Resolve(p) && p@ == root@,
    {
        let a = Action::Resolve(copy_of(&root));
        let w = Walker {
            shadow,
            options,
            run: RunCache::new(),
            stack: Vec::new(),
            pending: Pending::Resolve { source: root },
            minified: Ghost(Seq::empty()),
        };
        (w, a)
    }

    /// Why the walk failed, once it has.
    pub fn failure(&self) -> (r: Option<&WalkError>)
        ensures
            match self.pending {
                Pending::Failed { error } => r == Some(&error),
                _ => r is None,
            },
    {
        match &self.pending {
            Pending::Failed { error } => Some(error),
            _ => None,
        }
    }

    fn fail(&mut self, error: WalkError) -> (a: Action)
        requires
            old(self).core_wf(),
        ensures
            final(self).wf(),
            a is Fail,
            final(self).pending == (Pending::Failed { error }),
            final(self).stack == old(self).stack,
            final(self).run == old(self).run,
            final(self).minified == old(self).minified,
            final(self).shadow == old(self).shadow,
            final(self).options == old(self).options,
    {
        self.pending = Pending::Failed { error };
        Action::Fail
    }

    fn on_stack(&self, id: &Vec<u8>) -> (r: bool)
        ensures
            r == ids_of(self.stack@).contains(id@),
    {
        let mut i: usize = 0;
        while i < self.stack.len()
            invariant
                i <= self.stack.len(),
                forall|j: int| 0 <= j < i ==> ids_of(self.stack@)[j] != id@,
            decreases self.stack.len() - i,
        {
            if same_bytes(&self.stack[i].id, id) {
                assert(ids_of(self.stack@)[i as int] == id@);
                return true;
            }
            i = i + 1;
        }
        false
    }

    /// Moves on within the top frame: resolves its next component, or, once
    /// all are done, writes its rewritten text.
    fn advance(&mut self) -> (a: Action)
        requires
            old(self).core_wf(),
            old(self).stack.len() > 0,
        ensures
            final(self).wf(),
            final(self).stack == old(self).stack,
            final(self).run == old(self).run,
            final(self).minified == old(self).minified,
            final(self).shadow == old(self).shadow,
            final(self).options == old(self).options,
            moves_on(*final(self), a),
            a matches Action::Write(p, t) ==> final(self).pending is Write && p@ == final(self).top().out@
                && t@ == prepared_text(final(self).top().text@, final(self).top().child_ids@, final(self).shadow@),
            !(a is Fail) && !(a is Finish) && !(a is Read) && !(a is Minify) && !(a is Copy),
            !(final(self).pending is Failed),
    {
        let n = self.stack.len();
        let ghost top = self.stack@[n - 1];
        assert(frame_ok(self.stack@[n - 1], self.shadow@));
        let k = self.stack[n - 1].outs.len();
        if k < self.stack[n - 1].refs.len() {
            let d = self.stack[n - 1].refs[k];
            proof {
                lemma_scan_placed(top.text@, 0);
                assert(spans_of(top.refs@)[k as int] == d@);
                assert(spans_of(top.refs@)[k as int].start == d.start as int);
            }
            let name = slice_bytes(&self.stack[n - 1].text, d.name_start, d.name_end);
            assert(directives_of(top.text@)[k as int] == d@);
            let child = sibling_path(&self.stack[n - 1].source, &name);
            let a = Action::Resolve(copy_of(&child));
            self.pending = Pending::Resolve { source: child };
            a
        } else {
            proof {
                lemma_scan_placed(top.text@, 0);
                assert(views_of(top.outs@) =~= top.child_ids@.map_values(
                    |id: Seq<u8>| shadow_path(self.shadow@, id),
                ));
            }
            let text = rewrite(&self.stack[n - 1].text, &self.stack[n - 1].refs, &self.stack[n - 1].outs);
            let path = copy_of(&self.stack[n - 1].out);
            self.pending = Pending::Write;
            Action::Write(path, text)
        }
    }

    /// The template with identity `id` is done; its minified copy lies at
    /// `out`. Hands `out` to the template that referenced it, or ends the walk.
    fn complete(&mut self, out: Vec<u8>, id: Ghost<Seq<u8>>) -> (a: Action)
        requires
            old(self).core_wf(),
            old(self).stack.len() > 0 ==> old(self).top().outs.len() < old(self).top().refs.len(),
            out@ == shadow_path(old(self).shadow@, id@),
        ensures
            final(self).wf(),
            final(self).run == old(self).run,
            final(self).minified == old(self).minified,
            final(self).shadow == old(self).shadow,
            final(self).options == old(self).options,
            old(self).stack.len() == 0 ==> (final(self).pending == (Pending::Finished { out }) && (a matches Action::Finish(p) && p@ == out@)),
            hands_on(old(self).stack@, *final(self), a, id@),
            a matches Action::Write(p, t) ==> final(self).pending is Write && p@ == final(self).top().out@
                && t@ == prepared_text(final(self).top().text@, final(self).top().child_ids@, final(self).shadow@),
            !(a is Fail) && !(a is Read) && !(a is Minify) && !(a is Copy),
            !(final(self).pending is Failed),
            a matches Action::Finish(p) ==> (final(self).pending matches Pending::Finished { out: o } && p@ == o@),
    {
        if self.stack.len() == 0 {
            let a = Action::Finish(copy_of(&out));
            self.pending = Pending::Finished { out };
            return a;
        }
        let ghost old_stack = self.stack@;
        let mut f = self.stack.pop().unwrap();
        let ghost last = f;
        proof {
            assert(frame_ok(old_stack[old_stack.len() - 1], self.shadow@));
            lemma_ids_drop_last(old_stack);
        }
        let ghost out_view = out@;
        f.outs.push(out);
        f.child_ids = Ghost(f.child_ids@.push(id@));
        let ghost f2 = f;
        self.stack.push(f);
        proof {
            lemma_ids_push(old_stack.drop_last(), f2);
            assert(ids_of(self.stack@) =~= ids_of(old_stack));
            assert forall|i: int| 0 <= i < self.stack.len() - 1 implies (#[trigger] self.stack@[i]).outs.len() < self.stack@[i].refs.len() by {
                assert(self.stack@[i] == old_stack[i]);
            }
            assert forall|i: int| 0 <= i < self.stack.len() implies frame_ok(#[trigger] self.stack@[i], self.shadow@) by {
                if i < self.stack.len() - 1 {
                    assert(self.stack@[i] == old_stack[i]);
                    assert(frame_ok(old_stack[i], self.shadow@));
                } else {
                    assert(forall|k: int| 0 <= k < f2.outs.len() - 1 ==> f2.outs@[k] == old_stack.last().outs@[k]);
                }
            }
        }
        proof {
            assert(last == old_stack.last());
            assert(views_of(f2.outs@) =~= views_of(last.outs@).push(out_view));
            assert forall|i: int| 0 <= i < old_stack.len() - 1 implies #[trigger] self.stack@[i] == old_stack[i] by {}
            assert(self.top() == f2);
        }
        self.advance()
    }

    /// Begins processing the template `id`, which no earlier step of this walk visited.
    fn process(&mut self, source: Vec<u8>, id: Vec<u8>, out: Vec<u8>) -> (a: Action)
        requires
            old(self).core_wf(),
            old(self).stack.len() > 0 ==> old(self).top().outs.len() < old(self).top().refs.len(),
            !old(self).run@.contains(id@),
            out@ == shadow_path(old(self).shadow@, id@),
        ensures
            final(self).wf(),
            final(self).run@ == old(self).run@.insert(id@),
            final(self).stack == old(self).stack,
            final(self).minified == old(self).minified,
            final(self).shadow == old(self).shadow,
            final(self).options == old(self).options,
            final(self).pending matches Pending::Read { source: s, id: i, out: o } && s@ == source@ && i@ == id@ && o@ == out@,
            a matches Action::Read(p) && p@ == source@,
    {
        self.run.insert(copy_of(&id));
        let a = Action::Read(copy_of(&source));
        self.pending = Pending::Read { source, id, out };
        assert forall|i: int| 0 <= i < self.stack.len() implies self.run@.contains(#[trigger] ids_of(self.stack@)[i]) by {
            assert(old(self).run@.contains(ids_of(self.stack@)[i]));
        }
        assert forall|i: int| 0 <= i < self.minified@.len() implies self.run@.contains(#[trigger] self.minified@[i]) by {
            assert(old(self).run@.contains(self.minified@[i]));
        }
        assert(!ids_of(self.stack@).contains(id@)) by {
            if ids_of(self.stack@).contains(id@) {
                let i = choose|i: int| 0 <= i < ids_of(self.stack@).len() && ids_of(self.stack@)[i] == id@;
                assert(old(self).run@.contains(ids_of(self.stack@)[i]));
            }
        }
        assert(!self.minified@.contains(id@)) by {
            if self.minified@.contains(id@) {
                let i = choose|i: int| 0 <= i < self.minified@.len() && self.minified@[i] == id@;
                assert(old(self).run@.contains(self.minified@[i]));
            }
        }
        a
    }
}

impl Walker {
    /// Visits the template `id`, reached at `source`.
    fn visit(&mut self, cache: &GlobalCache, source: Vec<u8>, id: Vec<u8>) -> (a: Action)
        requires
            old(self).core_wf(),
            cache.wf(),
            old(self).stack.len() > 0 ==> old(self).top().outs.len() < old(self).top().refs.len(),
        ensures
            final(self).wf(),
            final(self).minified == old(self).minified,
            final(self).shadow == old(self).shadow,
            final(self).options == old(self).options,
            a is Fail <==> final(self).pending is Failed,
            a matches Action::Read(p) ==> (final(self).pending matches Pending::Read { id: i, .. } && i@ == id@
                && !cache@.contains_key(id@)),
            a matches Action::Write(p, t) ==> final(self).pending is Write && p@ == final(self).top().out@
                && t@ == prepared_text(final(self).top().text@, final(self).top().child_ids@, final(self).shadow@),
            a is Fail ==> final(self).pending == (Pending::Failed { error: WalkError::Cycle(id) }),
            a is Fail <==> (old(self).run@.contains(id@) && ids_of(old(self).stack@).contains(id@)),
            a is Fail ==> final(self).run == old(self).run && final(self).stack == old(self).stack,
            old(self).run@.contains(id@) && !ids_of(old(self).stack@).contains(id@) ==> hands_on(
                old(self).stack@,
                *final(self),
                a,
                id@,
            ) && final(self).run == old(self).run,
            !old(self).run@.contains(id@) && !cache@.contains_key(id@) ==> (final(self).pending matches Pending::Read {
                id: i,
                out: o,
                ..
            } && i@ == id@ && o@ == shadow_path(old(self).shadow@, id@)) && final(self).run@ == old(self).run@.insert(id@)
                && final(self).stack == old(self).stack,
            !old(self).run@.contains(id@) && cache@.contains_key(id@) ==> (final(self).pending matches Pending::Exists {
                id: i,
                out: o,
                cached: c,
                ..
            } && i@ == id@ && o@ == shadow_path(old(self).shadow@, id@) && c@ == cache@[id@]) && final(self).run
                == old(self).run && final(self).stack == old(self).stack,
            !(a is Minify),
            !old(self).run@.contains(id@) && !cache@.contains_key(id@) ==> (a matches Action::Read(p) && p@ == source@),
            !old(self).run@.contains(id@) && cache@.contains_key(id@) ==> ((a matches Action::CheckExists(p) && p@ == cache@[id@])
                && (final(self).pending matches Pending::Exists { cached, .. } && cached@ == cache@[id@])),
            a matches Action::Finish(p) ==> (final(self).pending matches Pending::Finished { out: o } && p@ == o@),
    {
        let out = output_for(&self.shadow, &id);
        if self.run.contains(&id) {
            if self.on_stack(&id) {
                self.fail(WalkError::Cycle(id))
            } else {
                self.complete(out, Ghost(id@))
            }
        } else {
            match cache.get(&id) {
                Some(cached) => {
                    let a = Action::CheckExists(copy_of(&cached));
                    self.pending = Pending::Exists { source, id, out, cached };
                    a
                },
                None => self.process(source, id, out),
            }
        }
    }

    /// Takes what came of the last action and returns the next one.
    pub fn step(&mut self, cache: &mut GlobalCache, ev: Event) -> (a: Action)
        requires
            old(self).wf(),
            old(cache).wf(),
        ensures
            final(self).wf(),
            final(cache).wf(),
            final(self).shadow == old(self).shadow,
            final(self).options == old(self).options,
            // a finished or failed walk stays as it is
            old(self).is_terminal() ==> *final(self) == *old(self) && final(cache)@ == old(cache)@,
            old(self).pending is Failed ==> a is Fail,
            old(self).pending matches Pending::Finished { out } ==> (a matches Action::Finish(p) && p@ == out@),
            a is Fail <==> final(self).pending is Failed,
            a is Fail <==> fails_on(*old(self), ev),
            a is Fail ==> final(cache)@ == old(cache)@,
            // the run cache only grows; the frames change only where a
            // template is pushed, finished or handed on
            old(self).run@.subset_of(final(self).run@),
            (a is Read || a is CheckExists || a is Copy || a is Minify || a is Fail) ==> final(self).stack
                == old(self).stack,
            // a template visited earlier in this walk, and finished, is handed on at once
            old(self).pending is Resolve ==> (ev matches Event::Resolved(r) ==> (r is Some && old(self).run@.contains(
                r->0@,
            ) && !ids_of(old(self).stack@).contains(r->0@) ==> hands_on(old(self).stack@, *final(self), a, r->0@)
                && final(self).run == old(self).run && final(cache)@ == old(cache)@)),
            // a template not visited yet is looked up in the process-wide cache
            old(self).pending is Resolve ==> (ev matches Event::Resolved(r) ==> (r is Some && !old(self).run@.contains(
                r->0@,
            ) && !old(cache)@.contains_key(r->0@) ==> (final(self).pending matches Pending::Read { id: i, out: o, .. }
                && i@ == r->0@ && o@ == shadow_path(old(self).shadow@, r->0@)) && final(self).run@
                == old(self).run@.insert(r->0@))),
            old(self).pending is Resolve ==> (ev matches Event::Resolved(r) ==> (r is Some && !old(self).run@.contains(
                r->0@,
            ) && old(cache)@.contains_key(r->0@) ==> (final(self).pending matches Pending::Exists {
                id: i,
                out: o,
                cached: c,
                ..
            } && i@ == r->0@ && o@ == shadow_path(old(self).shadow@, r->0@) && c@ == old(cache)@[r->0@])
                && final(self).run == old(self).run)),
            // a cached copy that exists is reused where it lies, or copied
            old(self).pending matches Pending::Exists { id, out, cached, .. } ==> (ev matches Event::Exists(present) ==> (
            present && cached@ == out@ ==> hands_on(old(self).stack@, *final(self), a, id@) && final(self).run@
                == old(self).run@.insert(id@))),
            old(self).pending matches Pending::Exists { id, out, cached, .. } ==> (ev matches Event::Exists(present) ==> (
            present && cached@ != out@ ==> (final(self).pending matches Pending::Copy { id: i, out: o } && i@ == id@
                && o@ == out@) && final(self).run == old(self).run)),
            old(self).pending matches Pending::Exists { id, out, .. } ==> (ev matches Event::Exists(present) ==> (!present
                ==> (final(self).pending matches Pending::Read { id: i, out: o, .. } && i@ == id@ && o@ == out@)
                && final(self).run@ == old(self).run@.insert(id@))),
            old(self).pending matches Pending::Copy { id, .. } ==> (ev matches Event::Copied(ok) ==> (ok ==> hands_on(
                old(self).stack@,
                *final(self),
                a,
                id@,
            ) && final(self).run@ == old(self).run@.insert(id@))),
            // a template read is pushed, and its first component resolved
            old(self).pending matches Pending::Read { source, id, out } ==> (ev matches Event::Read(t) ==> (t is Some
                ==> final(self).stack.len() == old(self).stack.len() + 1 && (forall|i: int|
                0 <= i < old(self).stack.len() ==> #[trigger] final(self).stack@[i] == old(self).stack@[i])
                && final(self).top().source == source && final(self).top().id == id && final(self).top().out == out
                && final(self).top().text@ == t->0@ && final(self).top().outs.len() == 0 && moves_on(*final(self), a)
                && final(self).run == old(self).run)),
            old(self).pending is Write ==> (ev matches Event::Written(ok) ==> (ok ==> final(self).run == old(self).run)),
            // a template whose minifier run succeeded is handed on
            old(self).pending is Minify ==> (ev matches Event::Minified(rep) ==> (outcome(
                old(self).options.minifier,
                rep.started,
                rep.stderr@,
            ) is Ok ==> hands_on(old(self).stack@.drop_last(), *final(self), a, old(self).top().id@) && final(self).run
                == old(self).run)),
            // what follows each answer
            old(self).pending matches Pending::Resolve { source } ==> (ev matches Event::Resolved(r) ==> (
            r is Some && !old(self).run@.contains(r->0@) && !old(cache)@.contains_key(r->0@) ==> (a matches Action::Read(p)
                && p@ == source@))),
            old(self).pending matches Pending::Resolve { source } ==> (ev matches Event::Resolved(r) ==> (
            r is Some && !old(self).run@.contains(r->0@) && old(cache)@.contains_key(r->0@) ==> (a matches Action::CheckExists(p)
                && p@ == old(cache)@[r->0@]))),
            old(self).pending matches Pending::Resolve { source } ==> (ev matches Event::Resolved(r) ==> (r is None ==> final(self).pending
                == (Pending::Failed { error: WalkError::Unresolved(source) }))),
            old(self).pending matches Pending::Exists { cached, out, .. } ==> (ev matches Event::Exists(present) ==> (
            present && cached@ != out@ ==> (a matches Action::Copy(f, t) && f@ == cached@ && t@ == out@))),
            old(self).pending matches Pending::Exists { source, .. } ==> (ev matches Event::Exists(present) ==> (!present
                ==> (a matches Action::Read(p) && p@ == source@))),
            old(self).pending matches Pending::Exists { cached, out, .. } ==> (ev matches Event::Exists(present) ==> (
            present && cached@ == out@ ==> !(a is Read) && !(a is Copy) && !(a is Minify) && !(a is Fail))),
            old(self).pending matches Pending::Read { id, .. } ==> (ev matches Event::Read(t) ==> (t is Some
                ==> final(self).stack.len() == old(self).stack.len() + 1 && final(self).top().id@ == id@
                && final(self).top().text@ == t->0@)),
            old(self).pending is Write ==> (ev matches Event::Written(ok) ==> (ok ==> a is Minify)),
            old(self).pending is Minify ==> (ev matches Event::Minified(rep) ==> (outcome(
                old(self).options.minifier,
                rep.started,
                rep.stderr@,
            ) is Ok ==> final(cache)@ == old(cache)@.insert(old(self).top().id@, old(self).top().out@))),
            a matches Action::Finish(p) ==> (final(self).pending matches Pending::Finished { out } && p@ == out@),
            // the process-wide cache records a template only once the
            // minifier run on its rewritten text succeeded
            final(cache)@ == old(cache)@ || (old(self).pending is Minify && (ev matches Event::Minified(rep)
                && outcome(old(self).options.minifier, rep.started, rep.stderr@) is Ok) && final(cache)@
                == old(cache)@.insert(old(self).top().id@, old(self).top().out@) && final(self).minified@
                == old(self).minified@.push(old(self).top().id@)),
            final(self).minified@ == old(self).minified@ || (old(self).pending is Minify && final(self).minified@
                == old(self).minified@.push(old(self).top().id@)),
            // the minifier fails the walk exactly as its strategy says
            old(self).pending is Minify ==> (ev matches Event::Minified(rep) ==> (a is Fail <==> outcome(
                old(self).options.minifier,
                rep.started,
                rep.stderr@,
            ) is Err)),
            a matches Action::Write(p, t) ==> (final(self).pending is Write && p@ == final(self).top().out@
                && t@ == prepared_text(final(self).top().text@, final(self).top().child_ids@, final(self).shadow@)),
            a matches Action::Minify(argv) ==> (final(self).pending is Minify && deep(argv@) == command_line(
                final(self).options.minifier,
                final(self).top().out@,
                final(self).top().out@,
            )),
            // a template is read, and so minified, only where the process-wide
            // cache holds no copy of it, or its copy is gone
            a matches Action::Read(p) ==> (final(self).pending matches Pending::Read { id, .. } && !old(self).run@.contains(
                id@,
            ) && (!old(cache)@.contains_key(id@) || (old(self).pending matches Pending::Exists { id: i, .. } && i@
                == id@ && ev == Event::Exists(false)))),
    {
        let mut p = Pending::Write;
        std::mem::swap(&mut self.pending, &mut p);
        match p {
            Pending::Finished { out } => {
                let a = Action::Finish(copy_of(&out));
                self.pending = Pending::Finished { out };
                a
            },
            Pending::Failed { error } => {
                self.pending = Pending::Failed { error };
                Action::Fail
            },
            Pending::Resolve { source } => match ev {
                Event::Resolved(Some(id)) => self.visit(cache, source, id),
                Event::Resolved(None) => self.fail(WalkError::Unresolved(source)),
                _ => self.fail(WalkError::UnexpectedEvent),
            },
            Pending::Exists { source, id, out, cached } => match ev {
                Event::Exists(true) => {
                    if same_bytes(&cached, &out) {
                        let ghost g = id@;
                        self.run.insert(id);
                        assert forall|i: int| 0 <= i < self.stack.len() implies self.run@.contains(#[trigger] ids_of(self.stack@)[i]) by {
                            assert(old(self).run@.contains(ids_of(self.stack@)[i]));
                        }
                        assert forall|i: int| 0 <= i < self.minified@.len() implies self.run@.contains(#[trigger] self.minified@[i]) by {
                            assert(old(self).run@.contains(self.minified@[i]));
                        }
                        self.complete(out, Ghost(g))
                    } else {
                        let a = Action::Copy(cached, copy_of(&out));
                        self.pending = Pending::Copy { id, out };
                        a
                    }
                },
                Event::Exists(false) => self.process(source, id, out),
                _ => self.fail(WalkError::UnexpectedEvent),
            },
            Pending::Copy { id, out } => match ev {
                Event::Copied(true) => {
                    let ghost g = id@;
                    self.run.insert(id);
                    assert forall|i: int| 0 <= i < self.stack.len() implies self.run@.contains(#[trigger] ids_of(self.stack@)[i]) by {
                        assert(old(self).run@.contains(ids_of(self.stack@)[i]));
                    }
                    assert forall|i: int| 0 <= i < self.minified@.len() implies self.run@.contains(#[trigger] self.minified@[i]) by {
                        assert(old(self).run@.contains(self.minified@[i]));
                    }
                    self.complete(out, Ghost(g))
                },
                Event::Copied(false) => self.fail(WalkError::CopyFailed(out)),
                _ => self.fail(WalkError::UnexpectedEvent),
            },
            Pending::Read { source, id, out } => match ev {
                Event::Read(Some(text)) => {
                    let refs = scan(&text);
                    let f = Frame {
                        source,
                        id,
                        out,
                        text,
                        refs,
                        outs: Vec::new(),
                        child_ids: Ghost(Seq::empty()),
                    };
                    let ghost old_stack = self.stack@;
                    let ghost f2 = f;
                    self.stack.push(f);
                    proof {
                        assert(!self.minified@.contains(f2.id@));
                        lemma_ids_push(old_stack, f2);
                        assert(ids_of(self.stack@) == ids_of(old_stack).push(f2.id@));
                        assert forall|i: int| 0 <= i < self.stack.len() implies frame_ok(#[trigger] self.stack@[i], self.shadow@) by {
                            if i < old_stack.len() {
                                assert(self.stack@[i] == old_stack[i]);
                            }
                        }
                        assert forall|i: int| 0 <= i < self.stack.len() implies self.run@.contains(#[trigger] ids_of(self.stack@)[i]) by {
                            if i < old_stack.len() {
                                assert(ids_of(self.stack@)[i] == ids_of(old_stack)[i]);
                            }
                        }
                        assert forall|i: int| 0 <= i < self.stack.len() - 1 implies (#[trigger] self.stack@[i]).outs.len() < self.stack@[i].refs.len() by {
                            assert(self.stack@[i] == old_stack[i]);
                        }
                        assert forall|x: Seq<u8>| self.minified@.contains(x) implies !#[trigger] ids_of(self.stack@).contains(x) by {
                            if ids_of(self.stack@).contains(x) {
                                let i = choose|i: int| 0 <= i < ids_of(self.stack@).len() && ids_of(self.stack@)[i] == x;
                                if i < old_stack.len() {
                                    assert(ids_of(old_stack)[i] == x);
                                    assert(ids_of(old_stack).contains(x));
                                } else {
                                    assert(x == f2.id@);
                                }
                            }
                        }
                    }
                    self.advance()
                },
                Event::Read(None) => self.fail(WalkError::ReadFailed(source)),
                _ => self.fail(WalkError::UnexpectedEvent),
            },
            Pending::Write => match ev {
                Event::Written(true) => {
                    let n = self.stack.len();
                    let argv = self.options.command_line(&self.stack[n - 1].out, &self.stack[n - 1].out);
                    self.pending = Pending::Minify;
                    Action::Minify(argv)
                },
                Event::Written(false) => {
                    let n = self.stack.len();
                    let path = copy_of(&self.stack[n - 1].out);
                    self.fail(WalkError::WriteFailed(path))
                },
                _ => self.fail(WalkError::UnexpectedEvent),
            },
            Pending::Minify => match ev {
                Event::Minified(report) => {
                    let n = self.stack.len();
                    match self.options.check_report(&report) {
                        Err(e) => {
                            let path = copy_of(&self.stack[n - 1].out);
                            self.fail(WalkError::MinifyFailed(path, e))
                        },
                        Ok(()) => {
                            let ghost old_stack = self.stack@;
                            let f = self.stack.pop().unwrap();
                            proof {
                                assert(frame_ok(old_stack[n - 1], self.shadow@));
                                lemma_ids_drop_last(old_stack);
                                assert(self.stack@ == old_stack.drop_last());
                                assert(ids_of(self.stack@) == ids_of(old_stack).drop_last());
                                assert(ids_of(old_stack)[n - 1] == f.id@);
                                assert(ids_of(old_stack).contains(f.id@));
                            }
                            cache.insert(copy_of(&f.id), copy_of(&f.out));
                            self.minified = Ghost(self.minified@.push(f.id@));
                            proof {
                                assert(self.run@.contains(ids_of(old_stack)[n - 1]));
                                assert forall|i: int| 0 <= i < self.minified@.len() implies self.run@.contains(#[trigger] self.minified@[i]) by {
                                    if i < self.minified@.len() - 1 {
                                        assert(self.minified@[i] == old(self).minified@[i]);
                                    }
                                }
                                assert forall|i: int| 0 <= i < self.stack.len() implies frame_ok(#[trigger] self.stack@[i], self.shadow@) by {
                                    assert(self.stack@[i] == old_stack[i]);
                                }
                                assert forall|i: int| 0 <= i < self.stack.len() implies self.run@.contains(#[trigger] ids_of(self.stack@)[i]) by {
                                    assert(ids_of(self.stack@)[i] == ids_of(old_stack)[i]);
                                }
                                assert forall|i: int| 0 <= i < self.stack.len() - 1 implies (#[trigger] self.stack@[i]).outs.len() < self.stack@[i].refs.len() by {
                                    assert(self.stack@[i] == old_stack[i]);
                                }
                                if self.stack.len() > 0 {
                                    assert(self.stack@[self.stack.len() - 1] == old_stack[n - 2]);
                                }
                                lemma_pop_keeps_apart(ids_of(old_stack), old(self).minified@);
                                assert(!old(self).minified@.contains(f.id@));
                            }
                            self.complete(f.out, Ghost(f.id@))
                        },
                    }
                },
                _ => self.fail(WalkError::UnexpectedEvent),
            },
        }
    }
}

/// Within one walk, each template is minified at most once, however many
/// templates reference it.
pub proof fn lemma_minified_at_most_once(w: Walker)
    requires
        w.wf(),
    ensures
        w.minified@.no_duplicates(),
{
}

/// A directive rewritten in a walk references the minified copy of its
/// component by a path fixed by the component's identity and the shadow root
/// alone. So at any two points of one walk, or of two walks with one shadow
/// root, two templates that reference one component (as in a diamond, where
/// the two are never on the stack together) reference the same copy.
pub proof fn lemma_shared_component_same_copy(w1: Walker, w2: Walker, i: int, j: int, k: int, m: int)
    requires
        w1.wf(),
        w2.wf(),
        w1.shadow@ == w2.shadow@,
        0 <= i < w1.stack.len(),
        0 <= j < w2.stack.len(),
        0 <= k < w1.stack@[i].outs.len(),
        0 <= m < w2.stack@[j].outs.len(),
        w1.stack@[i].child_ids@[k] == w2.stack@[j].child_ids@[m],
    ensures
        w1.stack@[i].outs@[k]@ == w2.stack@[j].outs@[m]@,
        w1.stack@[i].outs@[k]@ == shadow_path(w1.shadow@, w1.stack@[i].child_ids@[k]),
{
    assert(frame_ok(w1.stack@[i], w1.shadow@));
    assert(frame_ok(w2.stack@[j], w2.shadow@));
}

} // verus!
