//! Canonical text of type tags and struct tags.

use vstd::prelude::*;
use crate::text::{chars_of, hex_encode, hex_text, string_of};
use crate::types::{models_of, StructModel, StructTag, TagModel, TypeTag};

verus! {

broadcast use
    vstd::seq::axiom_seq_index_decreases,
    vstd::seq::axiom_seq_subrange_decreases,
    vstd::std_specs::vec::axiom_vec_index_decreases,
;

/// `h` without its leading zeros.
pub open spec fn trim_zeros(h: Seq<char>) -> Seq<char>
    decreases h.len(),
{
    if h.len() > 0 && h[0] == '0' {
        trim_zeros(h.drop_first())
    } else {
        h
    }
}

/// The shortest hexadecimal digits of an address: no leading zeros, and `0` for zero.
pub open spec fn short_hex(b: Seq<u8>) -> Seq<char> {
    let t = trim_zeros(hex_text(b));
    if t.len() == 0 {
        seq!['0']
    } else {
        t
    }
}

/// The canonical text of a type tag.
pub open spec fn render_tag(t: TagModel) -> Seq<char>
    decreases t,
{
    match t {
        TagModel::Bool => seq!['b', 'o', 'o', 'l'],
        TagModel::U8 => seq!['u', '8'],
        TagModel::U64 => seq!['u', '6', '4'],
        TagModel::U128 => seq!['u', '1', '2', '8'],
        TagModel::Address => seq!['a', 'd', 'd', 'r', 'e', 's', 's'],
        TagModel::Signer => seq!['s', 'i', 'g', 'n', 'e', 'r'],
        TagModel::Vector(inner) => seq!['v', 'e', 'c', 't', 'o', 'r', '<'] + render_tag(*inner)
            + seq!['>'],
        TagModel::Struct(st) => struct_head(st.address, st.module, st.name) + if st.type_params.len()
            == 0 {
            Seq::empty()
        } else {
            seq!['<'] + render_list(st.type_params) + seq!['>']
        },
    }
}

/// `0x`, the short address, `::` module `::` name.
pub open spec fn struct_head(address: Seq<u8>, module: Seq<char>, name: Seq<char>) -> Seq<char> {
    seq!['0', 'x'] + short_hex(address) + seq![':', ':'] + module + seq![':', ':'] + name
}

/// The texts of the tags, separated by `, `.
pub open spec fn render_list(params: Seq<TagModel>) -> Seq<char>
    decreases params,
{
    if params.len() == 0 {
        Seq::empty()
    } else if params.len() == 1 {
        render_tag(params[0])
    } else {
        render_list(params.drop_last()) + seq![',', ' '] + render_tag(params.last())
    }
}

/// The canonical text of a struct tag.
pub open spec fn render_struct(st: StructModel) -> Seq<char> {
    render_tag(TagModel::Struct(st))
}

} // verus!

verus! {

fn push_all(out: &mut Vec<char>, w: &[char])
    ensures
        final(out)@ == old(out)@ + w@,
{
    let ghost start = out@;
    let mut i: usize = 0;
    while i < w.len()
        invariant
            i <= w@.len(),
            out@ == start + w@.take(i as int),
        decreases w.len() - i,
    {
        out.push(w[i]);
        i = i + 1;
        assert(out@ =~= start + w@.take(i as int));
    }
    assert(w@.take(i as int) =~= w@);
}

proof fn lemma_models_index(v: Seq<TypeTag>)
    ensures
        models_of(v).len() == v.len(),
        forall|i: int| 0 <= i < v.len() ==> #[trigger] models_of(v)[i] == v[i].model(),
    decreases v.len(),
{
    if v.len() > 0 {
        lemma_models_index(v.drop_last());
    }
}

proof fn lemma_trim_step(h: Seq<char>, k: int)
    requires
        0 <= k < h.len(),
        h[k] == '0',
    ensures
        trim_zeros(h.subrange(k, h.len() as int)) == trim_zeros(h.subrange(k + 1, h.len() as int)),
{
    assert(h.subrange(k, h.len() as int).drop_first() =~= h.subrange(k + 1, h.len() as int));
}

/// The digits of `b` in hexadecimal without leading zeros, or `0`.
fn short_hex_of(b: &Vec<u8>) -> (r: Vec<char>)
    ensures
        r@ == short_hex(b@),
{
    let h = chars_of(hex_encode(b).as_str());
    let mut k: usize = 0;
    assert(h@.subrange(0, h@.len() as int) =~= h@);
    while k < h.len() && h[k] == '0'
        invariant
            k <= h.len(),
            h@ == hex_text(b@),
            trim_zeros(h@) == trim_zeros(h@.subrange(k as int, h@.len() as int)),
        decreases h.len() - k,
    {
        proof {
            lemma_trim_step(h@, k as int);
        }
        k = k + 1;
    }
    let mut t: Vec<char> = Vec::new();
    let ghost tail = h@.subrange(k as int, h@.len() as int);
    push_all(&mut t, h.as_slice().split_at(k).1);
    assert(t@ =~= tail);
    if t.len() == 0 {
        let mut z: Vec<char> = Vec::new();
        z.push('0');
        assert(z@ =~= seq!['0']);
        z
    } else {
        t
    }
}

impl TypeTag {
    fn write_to(&self, out: &mut Vec<char>)
        ensures
            final(out)@ == old(out)@ + render_tag(self.model()),
        decreases self,
    {
        let ghost start = out@;
        match self {
            TypeTag::Bool => {
                let w = ['b', 'o', 'o', 'l'];
                assert(w@ =~= seq!['b', 'o', 'o', 'l']);
                push_all(out, &w);
            },
            TypeTag::U8 => {
                let w = ['u', '8'];
                assert(w@ =~= seq!['u', '8']);
                push_all(out, &w);
            },
            TypeTag::U64 => {
                let w = ['u', '6', '4'];
                assert(w@ =~= seq!['u', '6', '4']);
                push_all(out, &w);
            },
            TypeTag::U128 => {
                let w = ['u', '1', '2', '8'];
                assert(w@ =~= seq!['u', '1', '2', '8']);
                push_all(out, &w);
            },
            TypeTag::Address => {
                let w = ['a', 'd', 'd', 'r', 'e', 's', 's'];
                assert(w@ =~= seq!['a', 'd', 'd', 'r', 'e', 's', 's']);
                push_all(out, &w);
            },
            TypeTag::Signer => {
                let w = ['s', 'i', 'g', 'n', 'e', 'r'];
                assert(w@ =~= seq!['s', 'i', 'g', 'n', 'e', 'r']);
                push_all(out, &w);
            },
            TypeTag::Vector(inner) => {
                let w = ['v', 'e', 'c', 't', 'o', 'r', '<'];
                assert(w@ =~= seq!['v', 'e', 'c', 't', 'o', 'r', '<']);
                push_all(out, &w);
                (**inner).write_to(out);
                out.push('>');
                assert(out@ =~= start + render_tag(self.model()));
            },
            TypeTag::Struct(st) => {
                (**st).write_to(out);
            },
        }
    }

    /// The canonical text of this type tag.
    pub fn to_string(&self) -> (r: String)
        ensures
            r@ == render_tag(self.model()),
    {
        let mut out: Vec<char> = Vec::new();
        self.write_to(&mut out);
        assert(out@ =~= render_tag(self.model()));
        string_of(&out)
    }
}

impl StructTag {
    fn write_to(&self, out: &mut Vec<char>)
        ensures
            final(out)@ == old(out)@ + render_struct(self.model()),
        decreases self,
    {
        let ghost start = out@;
        let ghost m = self.model();
        let w = ['0', 'x'];
        assert(w@ =~= seq!['0', 'x']);
        push_all(out, &w);
        let a = short_hex_of(&self.address.bytes);
        push_all(out, a.as_slice());
        let sep = [':', ':'];
        assert(sep@ =~= seq![':', ':']);
        push_all(out, &sep);
        let module = chars_of(self.module.as_str());
        push_all(out, module.as_slice());
        push_all(out, &sep);
        let name = chars_of(self.name.as_str());
        push_all(out, name.as_slice());
        let ghost head = out@;
        assert(head =~= start + struct_head(m.address, m.module, m.name));
        let n = self.type_params.len();
        proof {
            lemma_models_index(self.type_params@);
        }
        if n > 0 {
            out.push('<');
            let mut i: usize = 0;
            while i < n
                invariant
                    i <= n == self.type_params@.len() == m.type_params.len(),
                    m == self.model(),
                    forall|k: int| 0 <= k < n ==> #[trigger] m.type_params[k] == self.type_params@[k].model(),
                    out@ == head + seq!['<'] + render_list(m.type_params.take(i as int)),
                decreases n - i,
            {
                let ghost before = out@;
                if i > 0 {
                    out.push(',');
                    out.push(' ');
                }
                self.type_params[i].write_to(out);
                proof {
                    let s = m.type_params.take(i + 1);
                    assert(s.drop_last() =~= m.type_params.take(i as int));
                    if i == 0 {
                        assert(render_list(m.type_params.take(0)) =~= Seq::<char>::empty());
                    }
                }
                i = i + 1;
                assert(out@ =~= head + seq!['<'] + render_list(m.type_params.take(i as int)));
            }
            out.push('>');
            assert(m.type_params.take(n as int) =~= m.type_params);
            assert(out@ =~= start + render_struct(m));
        } else {
            assert(out@ =~= start + render_struct(m));
        }
    }

    /// The canonical text of this struct tag.
    pub fn to_string(&self) -> (r: String)
        ensures
            r@ == render_struct(self.model()),
    {
        let mut out: Vec<char> = Vec::new();
        self.write_to(&mut out);
        assert(out@ =~= render_struct(self.model()));
        string_of(&out)
    }
}

} // verus!
