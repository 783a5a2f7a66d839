//! Kernels: their names, their source, and the collection that keeps one of each.
use crate::text::{
    decimal, hash, lemma_decimal_injective, push_decimal, replace, replaced, text_hash,
};
use vstd::hash_map::StringHashMap;
use vstd::prelude::*;

verus! {

/// A kernel to compile: the name of its entry point and its source.
#[derive(Debug)]
pub struct Kernel {
    pub name: String,
    pub code: String,
}

/// The name and the source of a kernel.
pub struct KernelText {
    pub name: Seq<char>,
    pub code: Seq<char>,
}

impl View for Kernel {
    type V = KernelText;

    open spec fn view(&self) -> KernelText {
        KernelText { name: self.name@, code: self.code@ }
    }
}

/// The name of a kernel whose template has the hash `h`.
pub open spec fn kernel_name(h: u64) -> Seq<char> {
    "kernel_"@ + decimal(h as nat)
}

/// The name of the kernel of a template.
pub open spec fn name_of(template: Seq<char>) -> Seq<char> {
    kernel_name(text_hash(template))
}

/// The kernel of a template: the template with the name in the place of `mkernel`.
pub open spec fn kernel_of(template: Seq<char>) -> KernelText {
    KernelText {
        name: name_of(template),
        code: replaced(template, "mkernel"@, name_of(template)),
    }
}

/// Whether one of the kernels has that name.
pub open spec fn named(kernels: Seq<KernelText>, name: Seq<char>) -> bool {
    exists|i: int| 0 <= i < kernels.len() && (#[trigger] kernels[i]).name == name
}

/// No two kernels share a name.
pub open spec fn unique_names(kernels: Seq<KernelText>) -> bool {
    forall|i: int, j: int| 0 <= i < j < kernels.len() ==> (#[trigger] kernels[i]).name != (
    #[trigger] kernels[j]).name
}

/// The kernels once that of a template has been asked for: it is added unless one has its name.
pub open spec fn requested(kernels: Seq<KernelText>, template: Seq<char>) -> Seq<KernelText> {
    if named(kernels, name_of(template)) {
        kernels
    } else {
        kernels.push(kernel_of(template))
    }
}

/// The kernels once those of all templates have been asked for in turn.
pub open spec fn all_requested(
    kernels: Seq<KernelText>,
    templates: Seq<Seq<char>>,
) -> Seq<KernelText>
    decreases templates.len(),
{
    if templates.len() == 0 {
        kernels
    } else {
        requested(all_requested(kernels, templates.drop_last()), templates.last())
    }
}

/// Whether kernel `k` has the name of the kernel of `template`.
pub open spec fn runs(kernels: Seq<KernelText>, k: nat, template: Seq<char>) -> bool {
    k < kernels.len() && kernels[k as int].name == name_of(template)
}

/// The kernels that a graph needs, each once, in the order in which they were first asked for.
pub struct Kernels {
    list: Vec<Kernel>,
    index: StringHashMap<usize>,
}

impl View for Kernels {
    type V = Seq<KernelText>;

    closed spec fn view(&self) -> Seq<KernelText> {
        self.list@.map_values(|k: Kernel| k@)
    }
}

impl Kernels {
    /// The index knows the place of every kernel, and of no other name.
    pub closed spec fn wf(&self) -> bool {
        &&& forall|i: int|
            0 <= i < self.list@.len() ==> self.index@.contains_key(
                (#[trigger] self.list@[i]).name@,
            ) && self.index@[self.list@[i].name@] == i
        &&& forall|name: Seq<char>| #[trigger]
            self.index@.contains_key(name) ==> self.index@[name] < self.list@.len()
                && self.list@[self.index@[name] as int].name@ == name
    }

    /// No kernels.
    pub fn new() -> (res: Self)
        ensures
            res.wf(),
            res@ == Seq::<KernelText>::empty(),
    {
        let res = Kernels { list: Vec::new(), index: StringHashMap::new() };
        proof {
            assert(res@ =~= Seq::<KernelText>::empty());
        }
        res
    }

    /// The number of kernels.
    pub fn len(&self) -> (n: usize)
        ensures
            n == self@.len(),
    {
        self.list.len()
    }

    /// The kernel at a place.
    pub fn get(&self, i: usize) -> (kernel: &Kernel)
        requires
            i < self@.len(),
        ensures
            kernel@ == self@[i as int],
    {
        &self.list[i]
    }

    /// Asks for the kernel of a template and hands back its place. The kernel is added unless
    /// one of its name is there.
    pub fn request(&mut self, template: &str) -> (k: usize)
        requires
            old(self).wf(),
        ensures
            final(self).wf(),
            final(self)@ == requested(old(self)@, template@),
            runs(final(self)@, k as nat, template@),
    {
        let mut name = "kernel_".to_string();
        push_decimal(&mut name, hash(template) as u128);
        proof {
            reveal_strlit("mkernel");
        }
        let code = replace(template, "mkernel", name.as_str());
        match self.index.get(name.as_str()) {
            Some(k) => {
                proof {
                    assert(self@[*k as int].name == name_of(template@));
                }
                *k
            },
            None => {
                let k = self.list.len();
                let ghost before = self.list@;
                self.index.insert(name.clone(), k);
                self.list.push(Kernel { name, code });
                proof {
                    let text = kernel_of(template@);
                    assert(self@ =~= old(self)@.push(text));
                    assert forall|i: int| 0 <= i < old(self)@.len() implies (
                    #[trigger] old(self)@[i]).name != text.name by {
                        assert(old(self)@[i].name == before[i].name@);
                        assert(old(self).index@.contains_key(before[i].name@));
                    }
                    assert(!named(old(self)@, text.name));
                    assert forall|i: int| 0 <= i < self.list@.len() implies self.index@.contains_key(
                        (#[trigger] self.list@[i]).name@,
                    ) && self.index@[self.list@[i].name@] == i by {
                        if i < before.len() {
                            assert(self.list@[i] == before[i]);
                            assert(old(self)@[i].name != text.name);
                        }
                    }
                    assert forall|n: Seq<char>| #[trigger] self.index@.contains_key(n) implies self.index@[n]
                        < self.list@.len() && self.list@[self.index@[n] as int].name@ == n by {
                        if n != text.name {
                            assert(old(self).index@.contains_key(n));
                        }
                    }
                }
                k
            },
        }
    }

    /// No two kernels share a name.
    pub proof fn lemma_unique_names(&self)
        requires
            self.wf(),
        ensures
            unique_names(self@),
    {
        assert forall|i: int, j: int| 0 <= i < j < self@.len() implies (#[trigger] self@[i]).name
            != (#[trigger] self@[j]).name by {
            assert(self@[i].name == self.list@[i].name@);
            assert(self@[j].name == self.list@[j].name@);
        }
    }
}

/// Templates of different hashes have kernels of different names.
pub proof fn lemma_kernel_name_injective(g: u64, h: u64)
    requires
        kernel_name(g) == kernel_name(h),
    ensures
        g == h,
{
    let p = "kernel_"@;
    assert(decimal(g as nat) =~= kernel_name(g).skip(p.len() as int));
    assert(decimal(h as nat) =~= kernel_name(h).skip(p.len() as int));
    lemma_decimal_injective(g as nat, h as nat);
}

/// Asking for a kernel keeps the kernels there were in their places.
pub proof fn lemma_requested_keeps(kernels: Seq<KernelText>, template: Seq<char>, k: int)
    requires
        0 <= k < kernels.len(),
    ensures
        k < requested(kernels, template).len(),
        requested(kernels, template)[k] == kernels[k],
{
}

/// Asking for the kernel of one template twice adds nothing the second time.
pub proof fn lemma_requested_twice(kernels: Seq<KernelText>, template: Seq<char>)
    ensures
        requested(requested(kernels, template), template) == requested(kernels, template),
{
    let once = requested(kernels, template);
    if !named(kernels, name_of(template)) {
        assert(once[kernels.len() as int].name == name_of(template));
    }
}

/// A kernel that was asked for first has the source of its template: `k` is the kernel of
/// `template`, unless a template of the same hash was asked for before.
pub proof fn lemma_requested_code(kernels: Seq<KernelText>, template: Seq<char>)
    requires
        !named(kernels, name_of(template)),
    ensures
        requested(kernels, template).last() == kernel_of(template),
{
}

/// No two of the kernels that were asked for share a name.
pub proof fn lemma_requested_unique(templates: Seq<Seq<char>>)
    ensures
        unique_names(all_requested(Seq::empty(), templates)),
    decreases templates.len(),
{
    if templates.len() > 0 {
        let before = all_requested(Seq::empty(), templates.drop_last());
        let after = all_requested(Seq::empty(), templates);
        lemma_requested_unique(templates.drop_last());
        assert forall|i: int, j: int| 0 <= i < j < after.len() implies (#[trigger] after[i]).name
            != (#[trigger] after[j]).name by {
            assert(after[i] == before[i]);
            if j < before.len() {
                assert(after[j] == before[j]);
            }
        }
    }
}

/// Operators of one template run one kernel.
pub proof fn lemma_one_kernel(kernels: Seq<KernelText>, j: nat, k: nat, template: Seq<char>)
    requires
        unique_names(kernels),
        runs(kernels, j, template),
        runs(kernels, k, template),
    ensures
        j == k,
{
    assert(kernels[j as int].name == kernels[k as int].name);
}

/// Every kernel that is there is that of a template that was asked for.
pub proof fn lemma_kernel_from_template(templates: Seq<Seq<char>>, k: int) -> (j: int)
    requires
        0 <= k < all_requested(Seq::empty(), templates).len(),
    ensures
        0 <= j < templates.len(),
        all_requested(Seq::empty(), templates)[k] == kernel_of(templates[j]),
    decreases templates.len(),
{
    let rest = templates.drop_last();
    if k < all_requested(Seq::empty(), rest).len() {
        lemma_kernel_from_template(rest, k)
    } else {
        templates.len() - 1
    }
}

/// An operator runs the source of its own template, unless another template that was asked for
/// has the same hash.
pub proof fn lemma_runs_own_source(templates: Seq<Seq<char>>, k: nat, template: Seq<char>)
    requires
        runs(all_requested(Seq::empty(), templates), k, template),
        forall|j: int|
            0 <= j < templates.len() && text_hash(#[trigger] templates[j]) == text_hash(template)
                ==> templates[j] == template,
    ensures
        all_requested(Seq::empty(), templates)[k as int] == kernel_of(template),
{
    let j = lemma_kernel_from_template(templates, k as int);
    lemma_kernel_name_injective(text_hash(templates[j]), text_hash(template));
}

/// Asking for a kernel hands back the place of one that is named by the hash of its template. The
/// kernels there were stay in their places; where none had the name, one more is there, whose
/// source is the template with the name in the place of `mkernel`, and else no more.
pub proof fn lemma_request(kernels: &mut Kernels, template: &str, k: usize)
    requires
        call_ensures(Kernels::request, (kernels, template), k),
    ensures
        ({
            let name = "kernel_"@ + decimal(text_hash(template@) as nat);
            let (before, after) = (old(kernels)@, final(kernels)@);
            &&& k < after.len()
            &&& after[k as int].name == name
            &&& forall|i: int| 0 <= i < before.len() ==> after[i] == #[trigger] before[i]
            &&& if exists|i: int| 0 <= i < before.len() && (#[trigger] before[i]).name == name {
                after.len() == before.len()
            } else {
                after.len() == before.len() + 1 && k == before.len() && after[k as int].code
                    == replaced(template@, "mkernel"@, name)
            }
        }),
{
    let name = "kernel_"@ + decimal(text_hash(template@) as nat);
    let before = old(kernels)@;
    if !(exists|i: int| 0 <= i < before.len() && (#[trigger] before[i]).name == name) {
        assert(!named(before, name));
        if k < before.len() {
            assert(final(kernels)@[k as int] == before[k as int]);
        }
    }
}

} // verus!
