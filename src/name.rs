//! Domain names as sequences of labels, and their uncompressed wire form.
use crate::codec::{
    char_string, concat, emit_bytes, lemma_concat_cons, lemma_concat_prefix_len, lemma_concat_push,
};
use crate::error::ProtoError;
use crate::text::push_char;
use vstd::prelude::*;
use vstd::slice::{slice_subrange, slice_to_vec};
use vstd::string::StringSliceAdditionalSpecFns;

verus! {

/// A label may hold 1 to 63 octets.
pub open spec fn label_ok(l: Seq<u8>) -> bool {
    1 <= l.len() <= 63
}

/// A label in wire form.
pub open spec fn label_wire() -> spec_fn(Seq<u8>) -> Seq<u8> {
    |l: Seq<u8>| char_string(l)
}

/// Each label of `ls` as a character-string, then the zero-length root label.
pub open spec fn name_wire(ls: Seq<Seq<u8>>) -> Seq<u8> {
    concat(ls, label_wire()) + seq![0u8]
}

/// Labels that form a name: each label well sized, at most 255 octets in all.
pub open spec fn name_valid(ls: Seq<Seq<u8>>) -> bool {
    &&& forall|i: int| 0 <= i < ls.len() ==> label_ok(#[trigger] ls[i])
    &&& name_wire(ls).len() <= 255
}

/// The labels read from `s` at `i` up to and including the root label, and
/// the position after it. No compression: an octet above 63 is refused.
pub open spec fn parse_labels(s: Seq<u8>, i: int) -> Option<(Seq<Seq<u8>>, int)>
    decreases s.len() - i,
{
    if i < 0 || i >= s.len() {
        None
    } else if s[i] == 0 {
        Some((Seq::empty(), i + 1))
    } else if s[i] > 63 || i + 1 + s[i] > s.len() {
        None
    } else {
        match parse_labels(s, i + 1 + s[i]) {
            Some((rest, e)) => Some((seq![s.subrange(i + 1, i + 1 + s[i])] + rest, e)),
            None => None,
        }
    }
}

/// An uncompressed name at `i`, refused when longer than 255 octets.
pub open spec fn parse_name(s: Seq<u8>, i: int) -> Option<(Seq<Seq<u8>>, int)> {
    match parse_labels(s, i) {
        Some((ls, e)) => if e - i <= 255 {
            Some((ls, e))
        } else {
            None
        },
        None => None,
    }
}

pub open spec fn prepend_labels(
    acc: Seq<Seq<u8>>,
    o: Option<(Seq<Seq<u8>>, int)>,
) -> Option<(Seq<Seq<u8>>, int)> {
    match o {
        Some((r, e)) => Some((acc + r, e)),
        None => None,
    }
}

/// What `parse_labels` reads is exactly the wire form of what it returns.
pub proof fn lemma_parse_labels_sound(s: Seq<u8>, i: int)
    requires
        parse_labels(s, i) is Some,
    ensures
        ({
            let (ls, e) = parse_labels(s, i)->0;
            &&& i < e <= s.len()
            &&& s.subrange(i, e) == name_wire(ls)
            &&& forall|k: int| 0 <= k < ls.len() ==> label_ok(#[trigger] ls[k])
        }),
    decreases s.len() - i,
{
    let f = label_wire();
    if s[i] == 0 {
        assert(s.subrange(i, i + 1) =~= name_wire(Seq::empty()));
    } else {
        let n = s[i] as int;
        lemma_parse_labels_sound(s, i + 1 + n);
        let (rest, e) = parse_labels(s, i + 1 + n)->0;
        let l = s.subrange(i + 1, i + 1 + n);
        lemma_concat_cons(l, rest, f);
        assert(s.subrange(i, e) =~= char_string(l) + s.subrange(i + 1 + n, e));
        assert(name_wire(seq![l] + rest) =~= char_string(l) + name_wire(rest));
        let ls = seq![l] + rest;
        assert forall|k: int| 0 <= k < ls.len() implies label_ok(#[trigger] ls[k]) by {
            if k > 0 {
                assert(ls[k] == rest[k - 1]);
            }
        }
    }
}

/// The wire form of valid labels reads back as the same labels, whatever follows.
pub proof fn lemma_parse_labels_complete(ls: Seq<Seq<u8>>, s: Seq<u8>, i: int)
    requires
        forall|k: int| 0 <= k < ls.len() ==> label_ok(#[trigger] ls[k]),
        0 <= i,
        i + name_wire(ls).len() <= s.len(),
        s.subrange(i, i + name_wire(ls).len()) == name_wire(ls),
    ensures
        parse_labels(s, i) == Some((ls, i + name_wire(ls).len())),
    decreases ls.len(),
{
    let f = label_wire();
    let w = name_wire(ls);
    assert(s[i] == s.subrange(i, i + w.len())[0]);
    if ls.len() == 0 {
        assert(w =~= seq![0u8]);
    } else {
        let l = ls[0];
        let rest = ls.drop_first();
        assert(ls =~= seq![l] + rest);
        lemma_concat_cons(l, rest, f);
        assert(w =~= char_string(l) + name_wire(rest));
        assert(s[i] == l.len());
        let j = i + 1 + l.len();
        assert(s.subrange(i + 1, j) =~= w.subrange(1, 1 + l.len() as int));
        assert(s.subrange(i + 1, j) =~= l);
        assert(s.subrange(j, j + name_wire(rest).len()) =~= w.subrange(
            1 + l.len() as int,
            w.len() as int,
        ));
        assert forall|k: int| 0 <= k < rest.len() implies label_ok(#[trigger] rest[k]) by {
            assert(rest[k] == ls[k + 1]);
        }
        assert(w.subrange(1 + l.len() as int, w.len() as int) =~= name_wire(rest));
        lemma_parse_labels_complete(rest, s, j);
    }
}

/// A fully qualified domain name.
#[derive(Debug, PartialEq, Eq, Hash)]
pub struct Name {
    labels: Vec<Vec<u8>>,
}

impl View for Name {
    type V = Seq<Seq<u8>>;

    closed spec fn view(&self) -> Seq<Seq<u8>> {
        self.labels@.map_values(|l: Vec<u8>| l@)
    }
}

impl Name {
    #[verifier::type_invariant]
    spec fn inv(&self) -> bool {
        name_valid(self@)
    }

    /// The root name `.`.
    pub fn root() -> (r: Name)
        ensures
            r@ == Seq::<Seq<u8>>::empty(),
    {
        let r = Name { labels: Vec::new() };
        assert(r@ =~= Seq::<Seq<u8>>::empty());
        assert(name_wire(r@) =~= seq![0u8]);
        r
    }

    /// A name made of `labels`; fails unless they form a valid name.
    pub fn from_labels(labels: Vec<Vec<u8>>) -> (res: Result<Name, ProtoError>)
        ensures
            res is Ok <==> name_valid(labels@.map_values(|l: Vec<u8>| l@)),
            res matches Ok(n) ==> n@ == labels@.map_values(|l: Vec<u8>| l@),
    {
        let ghost ls = labels@.map_values(|l: Vec<u8>| l@);
        let ghost f = label_wire();
        let mut total: usize = 1;
        let mut i: usize = 0;
        while i < labels.len()
            invariant
                i <= labels@.len(),
                ls == labels@.map_values(|l: Vec<u8>| l@),
                f == label_wire(),
                forall|k: int| 0 <= k < i ==> label_ok(#[trigger] ls[k]),
                total == concat(ls.subrange(0, i as int), f).len() + 1,
                total <= 255,
            decreases labels@.len() - i,
        {
            let n = labels[i].len();
            assert(labels@[i as int]@ == ls[i as int]);
            if n == 0 || n > 63 {
                assert(!label_ok(ls[i as int]));
                return Err(ProtoError::BadLabel);
            }
            proof {
                lemma_concat_push(ls.subrange(0, i as int), ls[i as int], f);
                assert(ls.subrange(0, i + 1) =~= ls.subrange(0, i as int).push(ls[i as int]));
            }
            if total + 1 + n > 255 {
                proof {
                    lemma_concat_prefix_len(ls, (i + 1) as int, f);
                    assert(name_wire(ls).len() == concat(ls, f).len() + 1);
                }
                return Err(ProtoError::NameTooLong);
            }
            total = total + 1 + n;
            i = i + 1;
        }
        assert(ls.subrange(0, i as int) =~= ls);
        assert(name_wire(ls).len() == concat(ls, f).len() + 1);
        let r = Name { labels };
        assert(r@ == ls);
        Ok(r)
    }

    /// Parses a name in presentation form: labels separated by dots, a
    /// final dot optional, `.` alone for the root. No escapes are read.
    /// Fails on an empty label, on no label at all, and on labels that do
    /// not form a valid name.
    pub fn from_utf8(text: &str) -> (res: Result<Name, ProtoError>)
        ensures
            match res {
                Ok(n) => text_labels(text.spec_bytes()) == Some(n@),
                Err(_) => text_labels(text.spec_bytes()) matches Some(ls) ==> !name_valid(ls),
            },
    {
        let b = text.as_bytes();
        let ghost bs = b@;
        if b.len() == 1 && b[0] == 46 {
            let r = Name::root();
            return Ok(r);
        }
        assert(bs != seq![46u8]);
        let mut labels: Vec<Vec<u8>> = Vec::new();
        let mut cur: Vec<u8> = Vec::new();
        let mut i: usize = 0;
        while i < b.len()
            invariant
                bs == b@,
                bs == text.spec_bytes(),
                bs != seq![46u8],
                i <= bs.len(),
                scan_labels(bs, i as int) == Some((labels@.map_values(|l: Vec<u8>| l@), cur@)),
            decreases bs.len() - i,
        {
            let ghost ls = labels@.map_values(|l: Vec<u8>| l@);
            if b[i] == 46 {
                if cur.len() == 0 {
                    proof {
                        assert(cur@.len() == 0);
                        assert(bs[i as int] == 46);
                        assert(scan_labels(bs, i + 1) is None);
                        lemma_scan_fails_after(bs, (i + 1) as int);
                        assert(text_labels(bs) is None);
                    }
                    return Err(ProtoError::BadLabel);
                }
                let done = cur;
                cur = Vec::new();
                labels.push(done);
                assert(labels@.map_values(|l: Vec<u8>| l@) =~= ls.push(done@));
                assert(cur@ =~= Seq::<u8>::empty());
            } else {
                cur.push(b[i]);
            }
            i = i + 1;
        }
        if cur.len() > 0 {
            let ghost ls = labels@.map_values(|l: Vec<u8>| l@);
            let last = cur;
            labels.push(last);
            assert(labels@.map_values(|l: Vec<u8>| l@) =~= ls.push(last@));
        }
        if labels.len() == 0 {
            return Err(ProtoError::BadLabel);
        }
        Name::from_labels(labels)
    }

    /// The labels, root label excluded.
    pub fn labels(&self) -> (r: &Vec<Vec<u8>>)
        ensures
            r@.map_values(|l: Vec<u8>| l@) == self@,
    {
        &self.labels
    }

    /// The number of labels, root label excluded.
    pub fn num_labels(&self) -> (r: usize)
        ensures
            r == self@.len(),
    {
        self.labels.len()
    }
}

/// Reads an uncompressed name at `pos`.
pub fn read_name(buf: &[u8], pos: usize) -> (res: Result<(Name, usize), ProtoError>)
    ensures
        match res {
            Ok((n, p)) => parse_name(buf@, pos as int) == Some((n@, p as int)),
            Err(_) => parse_name(buf@, pos as int) is None,
        },
        res matches Err(e) ==> e != ProtoError::ParamsOutOfOrder,
{
    let ghost s = buf@;
    let mut labels: Vec<Vec<u8>> = Vec::new();
    let mut i: usize = pos;
    loop
        invariant_except_break
            s == buf@,
            pos <= i,
            parse_labels(s, pos as int) == prepend_labels(
                labels@.map_values(|l: Vec<u8>| l@),
                parse_labels(s, i as int),
            ),
        ensures
            s == buf@,
            pos < i,
            parse_labels(s, pos as int) == Some((labels@.map_values(|l: Vec<u8>| l@), i as int)),
        decreases s.len() - i,
    {
        if i >= buf.len() {
            return Err(ProtoError::UnexpectedEnd);
        }
        let n = buf[i];
        if n == 0 {
            proof {
                let ls = labels@.map_values(|l: Vec<u8>| l@);
                assert(ls + Seq::<Seq<u8>>::empty() =~= ls);
            }
            i = i + 1;
            break;
        }
        if n > 63 {
            return Err(ProtoError::BadLabelType);
        }
        if buf.len() - (i + 1) < n as usize {
            return Err(ProtoError::UnexpectedEnd);
        }
        let label = slice_to_vec(slice_subrange(buf, i + 1, i + 1 + n as usize));
        let ghost old_view = labels@.map_values(|l: Vec<u8>| l@);
        labels.push(label);
        proof {
            assert(label@ == s.subrange(i + 1, i + 1 + n));
            assert(parse_labels(s, i as int) == prepend_labels(
                seq![label@],
                parse_labels(s, i + 1 + n),
            ));
            assert(labels@.map_values(|l: Vec<u8>| l@) =~= old_view.push(label@));
            let o = parse_labels(s, i + 1 + n);
            match o {
                Some((r, e)) => {
                    assert(old_view + (seq![label@] + r) =~= old_view.push(label@) + r);
                },
                None => {},
            }
        }
        i = i + 1 + n as usize;
    }
    if i - pos > 255 {
        return Err(ProtoError::NameTooLong);
    }
    proof {
        lemma_parse_labels_sound(s, pos as int);
    }
    let name = Name { labels };
    Ok((name, i))
}

/// Appends the uncompressed wire form of `name`.
pub fn emit_name(out: &mut Vec<u8>, name: &Name)
    ensures
        final(out)@ == old(out)@ + name_wire(name@),
        name_valid(name@),
{
    let ghost start = out@;
    let ghost ls = name@;
    let ghost f = label_wire();
    proof {
        use_type_invariant(name);
    }
    let mut i: usize = 0;
    while i < name.labels.len()
        invariant
            i <= ls.len(),
            ls == name@,
            f == label_wire(),
            name_valid(ls),
            ls == name.labels@.map_values(|l: Vec<u8>| l@),
            out@ == start + concat(ls.subrange(0, i as int), f),
        decreases ls.len() - i,
    {
        let label = &name.labels[i];
        assert(label@ == ls[i as int]);
        assert(label_ok(ls[i as int]));
        out.push(label.len() as u8);
        emit_bytes(out, label.as_slice());
        proof {
            lemma_concat_push(ls.subrange(0, i as int), ls[i as int], f);
            assert(ls.subrange(0, i + 1) =~= ls.subrange(0, i as int).push(ls[i as int]));
            assert(out@ =~= start + concat(ls.subrange(0, i + 1), f));
        }
        i = i + 1;
    }
    out.push(0);
    assert(ls.subrange(0, i as int) =~= ls);
    assert(out@ =~= start + name_wire(ls));
}

/// ASCII lower case of one octet.
pub open spec fn lower(b: u8) -> u8 {
    if 65 <= b <= 90 {
        (b + 32) as u8
    } else {
        b
    }
}

/// ASCII upper case of one octet.
pub open spec fn upper(b: u8) -> u8 {
    if 97 <= b <= 122 {
        (b - 32) as u8
    } else {
        b
    }
}

/// Two labels that differ at most in the case of ASCII letters.
pub open spec fn label_eq_ignore_case(a: Seq<u8>, b: Seq<u8>) -> bool {
    a.len() == b.len() && forall|j: int| 0 <= j < a.len() ==> lower(#[trigger] a[j]) == lower(b[j])
}

/// Two names that differ at most in the case of ASCII letters.
pub open spec fn names_eq_ignore_case(a: Seq<Seq<u8>>, b: Seq<Seq<u8>>) -> bool {
    a.len() == b.len() && forall|i: int|
        0 <= i < a.len() ==> label_eq_ignore_case(#[trigger] a[i], b[i])
}

/// Whether `child` is `parent` or lies below it, ignoring case.
pub open spec fn in_zone(child: Seq<Seq<u8>>, parent: Seq<Seq<u8>>) -> bool {
    parent.len() <= child.len() && forall|k: int|
        0 <= k < parent.len() ==> label_eq_ignore_case(
            #[trigger] child[child.len() - parent.len() + k],
            parent[k],
        )
}

/// `ls` with every ASCII letter in lower case: the canonical form of a name.
pub open spec fn lower_name(ls: Seq<Seq<u8>>) -> Seq<Seq<u8>> {
    ls.map_values(|l: Seq<u8>| l.map_values(|b: u8| lower(b)))
}

/// Where label `i` starts in the wire form of `ls`.
pub open spec fn label_offset(ls: Seq<Seq<u8>>, i: int) -> int {
    concat(ls.subrange(0, i), label_wire()).len() as int
}

/// Octet `j` of label `i` after case randomization: upper case when the
/// random octet at its wire position is odd, lower case otherwise.
pub open spec fn randomized_octet(ls: Seq<Seq<u8>>, random: Seq<u8>, i: int, j: int) -> u8 {
    if random[label_offset(ls, i) + 1 + j] % 2 == 1 {
        upper(ls[i][j])
    } else {
        lower(ls[i][j])
    }
}

fn octet_eq_ignore_case(a: u8, b: u8) -> (r: bool)
    ensures
        r == (lower(a) == lower(b)),
{
    let la = if 65 <= a && a <= 90 { a + 32 } else { a };
    let lb = if 65 <= b && b <= 90 { b + 32 } else { b };
    la == lb
}

/// Labels of the same lengths have wire forms of the same length.
pub proof fn lemma_concat_same_lengths(a: Seq<Seq<u8>>, b: Seq<Seq<u8>>)
    requires
        a.len() == b.len(),
        forall|k: int| 0 <= k < a.len() ==> (#[trigger] a[k]).len() == b[k].len(),
    ensures
        concat(a, label_wire()).len() == concat(b, label_wire()).len(),
        name_valid(b) ==> name_valid(a),
    decreases a.len(),
{
    if a.len() > 0 {
        let a2 = a.drop_last();
        let b2 = b.drop_last();
        assert forall|k: int| 0 <= k < a2.len() implies (#[trigger] a2[k]).len() == b2[k].len() by {
            assert(a2[k] == a[k] && b2[k] == b[k]);
        }
        lemma_concat_same_lengths(a2, b2);
    }
    if name_valid(b) {
        assert forall|k: int| 0 <= k < a.len() implies label_ok(#[trigger] a[k]) by {
            assert(label_ok(b[k]));
        }
    }
}

/// The labels and the unfinished label that the first `i` octets of
/// presentation text give; `None` once an empty label is closed by a dot.
pub open spec fn scan_labels(b: Seq<u8>, i: int) -> Option<(Seq<Seq<u8>>, Seq<u8>)>
    decreases i,
{
    if i <= 0 {
        Some((Seq::empty(), Seq::empty()))
    } else {
        match scan_labels(b, i - 1) {
            None => None,
            Some((ls, cur)) => if b[i - 1] == 46 {
                if cur.len() == 0 {
                    None
                } else {
                    Some((ls.push(cur), Seq::empty()))
                }
            } else {
                Some((ls, cur.push(b[i - 1])))
            },
        }
    }
}

/// The labels that presentation text `b` names: `.` is the root; otherwise
/// labels separated by dots, a final dot optional, at least one label.
pub open spec fn text_labels(b: Seq<u8>) -> Option<Seq<Seq<u8>>> {
    if b == seq![46u8] {
        Some(Seq::empty())
    } else {
        match scan_labels(b, b.len() as int) {
            Some((ls, cur)) => {
                let all = if cur.len() > 0 {
                    ls.push(cur)
                } else {
                    ls
                };
                if all.len() > 0 {
                    Some(all)
                } else {
                    None
                }
            },
            None => None,
        }
    }
}

proof fn lemma_scan_fails_after(b: Seq<u8>, i: int)
    requires
        0 <= i <= b.len(),
        scan_labels(b, i) is None,
    ensures
        scan_labels(b, b.len() as int) is None,
    decreases b.len() - i,
{
    if i < b.len() {
        lemma_scan_fails_after(b, i + 1);
    }
}

/// The presentation text of one octet of a label: printable ASCII as is,
/// a dot or backslash escaped by a backslash, anything else as a backslash
/// and three decimal digits.
pub open spec fn octet_text(b: u8) -> Seq<char> {
    if b == 46 || b == 92 {
        seq!['\\', b as char]
    } else if 33 <= b <= 126 {
        seq![b as char]
    } else {
        seq!['\\', (48 + b / 100) as char, (48 + (b / 10) % 10) as char, (48 + b % 10) as char]
    }
}

/// The presentation text of a label.
pub open spec fn label_text(l: Seq<u8>) -> Seq<char>
    decreases l.len(),
{
    if l.len() == 0 {
        Seq::empty()
    } else {
        label_text(l.drop_last()) + octet_text(l.last())
    }
}

/// Each label's text followed by a dot.
pub open spec fn labels_text(ls: Seq<Seq<u8>>) -> Seq<char>
    decreases ls.len(),
{
    if ls.len() == 0 {
        Seq::empty()
    } else {
        labels_text(ls.drop_last()) + label_text(ls.last()) + seq!['.']
    }
}

/// The presentation text of a fully qualified name: `.` for the root.
pub open spec fn name_text(ls: Seq<Seq<u8>>) -> Seq<char> {
    if ls.len() == 0 {
        seq!['.']
    } else {
        labels_text(ls)
    }
}

fn push_octet(s: &mut String, b: u8)
    ensures
        final(s)@ == old(s)@ + octet_text(b),
{
    if b == 46 || b == 92 {
        push_char(s, '\\');
        push_char(s, b as char);
    } else if 33 <= b && b <= 126 {
        push_char(s, b as char);
    } else {
        push_char(s, '\\');
        push_char(s, (48 + b / 100) as char);
        push_char(s, (48 + (b / 10) % 10) as char);
        push_char(s, (48 + b % 10) as char);
    }
    assert(s@ =~= old(s)@ + octet_text(b));
}

/// The length of the uncompressed wire form of `name`.
pub fn name_wire_len(name: &Name) -> (r: usize)
    ensures
        r == name_wire(name@).len(),
{
    proof {
        use_type_invariant(name);
    }
    let ghost ls = name@;
    let mut total: usize = 1;
    let mut i: usize = 0;
    while i < name.labels.len()
        invariant
            ls == name@,
            name_valid(ls),
            ls == name.labels@.map_values(|l: Vec<u8>| l@),
            i <= ls.len(),
            total == concat(ls.subrange(0, i as int), label_wire()).len() + 1,
        decreases ls.len() - i,
    {
        proof {
            lemma_concat_push(ls.subrange(0, i as int), ls[i as int], label_wire());
            assert(ls.subrange(0, i + 1) =~= ls.subrange(0, i as int).push(ls[i as int]));
            lemma_concat_prefix_len(ls, i + 1, label_wire());
        }
        assert(name.labels@[i as int]@ == ls[i as int]);
        total = total + 1 + name.labels[i].len();
        i = i + 1;
    }
    assert(ls.subrange(0, i as int) =~= ls);
    total
}

impl Clone for Name {
    fn clone(&self) -> (r: Name)
        ensures
            r@ == self@,
    {
        let ghost ls = self@;
        let mut labels: Vec<Vec<u8>> = Vec::new();
        let mut i: usize = 0;
        while i < self.labels.len()
            invariant
                ls == self@,
                i <= ls.len(),
                labels@.len() == i,
                forall|k: int| 0 <= k < i ==> (#[trigger] labels@[k])@ == ls[k],
            decreases ls.len() - i,
        {
            labels.push(slice_to_vec(self.labels[i].as_slice()));
            i = i + 1;
        }
        proof {
            use_type_invariant(self);
        }
        assert(labels@.map_values(|l: Vec<u8>| l@) =~= ls);
        Name { labels }
    }
}

impl Name {
    /// Whether the two names are the same octet for octet, case included.
    pub fn eq_case_sensitive(&self, other: &Name) -> (r: bool)
        ensures
            r == (self@ == other@),
    {
        if self.labels.len() != other.labels.len() {
            assert(self@.len() != other@.len());
            return false;
        }
        let mut i: usize = 0;
        while i < self.labels.len()
            invariant
                self.labels@.len() == other.labels@.len(),
                i <= self.labels@.len(),
                forall|k: int| 0 <= k < i ==> self@[k] == other@[k],
            decreases self.labels@.len() - i,
        {
            let a = &self.labels[i];
            let b = &other.labels[i];
            assert(a@ == self@[i as int] && b@ == other@[i as int]);
            if a.len() != b.len() {
                return false;
            }
            let mut j: usize = 0;
            while j < a.len()
                invariant
                    i < self@.len(),
                    a@ == self@[i as int],
                    b@ == other@[i as int],
                    a@.len() == b@.len(),
                    j <= a@.len(),
                    forall|k: int| 0 <= k < j ==> a@[k] == b@[k],
                decreases a@.len() - j,
            {
                if a[j] != b[j] {
                    assert(self@[i as int][j as int] != other@[i as int][j as int]);
                    return false;
                }
                j = j + 1;
            }
            assert(a@ =~= b@);
            i = i + 1;
        }
        assert(self@ =~= other@);
        true
    }

    /// Whether the two names differ at most in the case of ASCII letters.
    pub fn eq_ignore_case(&self, other: &Name) -> (r: bool)
        ensures
            r == names_eq_ignore_case(self@, other@),
    {
        if self.labels.len() != other.labels.len() {
            assert(self@.len() != other@.len());
            return false;
        }
        let mut i: usize = 0;
        while i < self.labels.len()
            invariant
                self.labels@.len() == other.labels@.len(),
                i <= self.labels@.len(),
                forall|k: int| 0 <= k < i ==> label_eq_ignore_case(#[trigger] self@[k], other@[k]),
            decreases self.labels@.len() - i,
        {
            let a = &self.labels[i];
            let b = &other.labels[i];
            assert(a@ == self@[i as int] && b@ == other@[i as int]);
            if a.len() != b.len() {
                assert(!label_eq_ignore_case(self@[i as int], other@[i as int]));
                return false;
            }
            let mut j: usize = 0;
            while j < a.len()
                invariant
                    i < self@.len(),
                    a@ == self@[i as int],
                    b@ == other@[i as int],
                    a@.len() == b@.len(),
                    j <= a@.len(),
                    forall|k: int| 0 <= k < j ==> lower(#[trigger] a@[k]) == lower(b@[k]),
                decreases a@.len() - j,
            {
                if !octet_eq_ignore_case(a[j], b[j]) {
                    assert(lower(a@[j as int]) != lower(b@[j as int]));
                    assert(!label_eq_ignore_case(self@[i as int], other@[i as int]));
                    return false;
                }
                j = j + 1;
            }
            i = i + 1;
        }
        true
    }

    /// The same name with every ASCII letter in lower case.
    pub fn to_lowercase(&self) -> (r: Name)
        ensures
            r@ == lower_name(self@),
    {
        let ghost ls = self@;
        proof {
            use_type_invariant(self);
        }
        let mut out: Vec<Vec<u8>> = Vec::new();
        let mut i: usize = 0;
        while i < self.labels.len()
            invariant
                ls == self@,
                i <= ls.len(),
                out@.len() == i,
                forall|k: int| 0 <= k < i ==> (#[trigger] out@[k])@ == lower_name(ls)[k],
            decreases ls.len() - i,
        {
            let label = &self.labels[i];
            assert(label@ == ls[i as int]);
            let mut l: Vec<u8> = Vec::new();
            let mut j: usize = 0;
            while j < label.len()
                invariant
                    j <= label@.len(),
                    l@.len() == j,
                    forall|k: int| 0 <= k < j ==> l@[k] == lower(label@[k]),
                decreases label@.len() - j,
            {
                let b = label[j];
                l.push(if 65 <= b && b <= 90 { b + 32 } else { b });
                j = j + 1;
            }
            assert(l@ =~= ls[i as int].map_values(|b: u8| lower(b)));
            out.push(l);
            i = i + 1;
        }
        proof {
            let rv = out@.map_values(|l: Vec<u8>| l@);
            assert(rv =~= lower_name(ls));
            assert forall|k: int| 0 <= k < ls.len() implies (#[trigger] rv[k]).len() == ls[k].len() by {
                assert(rv[k] == out@[k]@);
            }
            lemma_concat_same_lengths(rv, ls);
        }
        Name { labels: out }
    }

    /// The presentation text, each label followed by a dot.
    pub fn to_text(&self) -> (r: String)
        ensures
            r@ == name_text(self@),
    {
        let ghost ls = self@;
        let mut s = String::new();
        if self.labels.len() == 0 {
            push_char(&mut s, '.');
            assert(s@ =~= seq!['.']);
            return s;
        }
        let mut i: usize = 0;
        while i < self.labels.len()
            invariant
                ls == self@,
                i <= ls.len(),
                s@ == labels_text(ls.subrange(0, i as int)),
            decreases ls.len() - i,
        {
            let label = &self.labels[i];
            assert(label@ == ls[i as int]);
            let ghost before = s@;
            let mut j: usize = 0;
            while j < label.len()
                invariant
                    j <= label@.len(),
                    s@ == before + label_text(label@.subrange(0, j as int)),
                decreases label@.len() - j,
            {
                push_octet(&mut s, label[j]);
                assert(label@.subrange(0, j + 1).drop_last() =~= label@.subrange(0, j as int));
                assert(s@ =~= before + label_text(label@.subrange(0, j + 1)));
                j = j + 1;
            }
            assert(label@.subrange(0, j as int) =~= label@);
            push_char(&mut s, '.');
            assert(ls.subrange(0, i + 1).drop_last() =~= ls.subrange(0, i as int));
            assert(s@ =~= labels_text(ls.subrange(0, i + 1)));
            i = i + 1;
        }
        assert(ls.subrange(0, i as int) =~= ls);
        s
    }

    /// Whether this name is `zone` or lies below it, ignoring case.
    pub fn is_in_zone(&self, zone: &Name) -> (r: bool)
        ensures
            r == in_zone(self@, zone@),
    {
        let n = self.labels.len();
        let z = zone.labels.len();
        if z > n {
            return false;
        }
        let off = n - z;
        let mut k: usize = 0;
        while k < z
            invariant
                n == self@.len(),
                z == zone@.len(),
                off == n - z,
                k <= z,
                forall|j: int|
                    0 <= j < k ==> label_eq_ignore_case(#[trigger] self@[off + j], zone@[j]),
            decreases z - k,
        {
            let a = &self.labels[off + k];
            let b = &zone.labels[k];
            assert(a@ == self@[off + k] && b@ == zone@[k as int]);
            if a.len() != b.len() {
                assert(self@.len() - zone@.len() + k == off + k);
                assert(!label_eq_ignore_case(
                    self@[self@.len() - zone@.len() + k],
                    zone@[k as int],
                ));
                return false;
            }
            let mut j: usize = 0;
            while j < a.len()
                invariant
                    n == self@.len(),
                    z == zone@.len(),
                    off == n - z,
                    k < z,
                    a@ == self@[off + k],
                    b@ == zone@[k as int],
                    a@.len() == b@.len(),
                    j <= a@.len(),
                    forall|i: int| 0 <= i < j ==> lower(#[trigger] a@[i]) == lower(b@[i]),
                decreases a@.len() - j,
            {
                if !octet_eq_ignore_case(a[j], b[j]) {
                    assert(lower(a@[j as int]) != lower(b@[j as int]));
                    assert(!label_eq_ignore_case(a@, b@));
                    assert(self@.len() - zone@.len() + k == off + k);
                    assert(!label_eq_ignore_case(
                        self@[self@.len() - zone@.len() + k],
                        zone@[k as int],
                    ));
                    return false;
                }
                j = j + 1;
            }
            assert(label_eq_ignore_case(a@, b@));
            k = k + 1;
        }
        assert forall|j: int| 0 <= j < zone@.len() implies label_eq_ignore_case(
            #[trigger] self@[self@.len() - zone@.len() + j],
            zone@[j],
        ) by {
            assert(self@.len() - zone@.len() + j == off + j);
        }
        true
    }

    /// The same name with the case of each ASCII letter chosen by `random`:
    /// the octet of `random` at the letter's position in the wire form
    /// decides, odd for upper case. Used to make spoofed answers detectable.
    pub fn randomize_case(&self, random: &[u8]) -> (r: Name)
        requires
            random@.len() >= name_wire(self@).len(),
        ensures
            r@.len() == self@.len(),
            forall|i: int|
                0 <= i < self@.len() ==> (#[trigger] r@[i]).len() == self@[i].len() && forall|j: int|
                    0 <= j < self@[i].len() ==> r@[i][j] == randomized_octet(self@, random@, i, j),
            names_eq_ignore_case(r@, self@),
    {
        let ghost ls = self@;
        proof {
            use_type_invariant(self);
        }
        let limit = random.len();
        let mut out: Vec<Vec<u8>> = Vec::new();
        let mut offset: usize = 0;
        let mut i: usize = 0;
        while i < self.labels.len()
            invariant
                ls == self@,
                name_valid(ls),
                random@.len() >= name_wire(ls).len(),
                limit == random@.len(),
                i <= ls.len(),
                out@.len() == i,
                offset == label_offset(ls, i as int),
                forall|k: int|
                    0 <= k < i ==> (#[trigger] out@[k])@.len() == ls[k].len() && forall|j: int|
                        0 <= j < ls[k].len() ==> out@[k]@[j] == randomized_octet(ls, random@, k, j),
            decreases ls.len() - i,
        {
            let label = &self.labels[i];
            assert(label@ == ls[i as int]);
            proof {
                lemma_concat_push(ls.subrange(0, i as int), ls[i as int], label_wire());
                assert(ls.subrange(0, i + 1) =~= ls.subrange(0, i as int).push(ls[i as int]));
                lemma_concat_prefix_len(ls, i + 1, label_wire());
                assert(label_offset(ls, i + 1) == offset + 1 + label@.len());
            }
            assert(offset + 1 + label@.len() <= random@.len());
            let mut l: Vec<u8> = Vec::new();
            let mut j: usize = 0;
            while j < label.len()
                invariant
                    i < ls.len(),
                    label@ == ls[i as int],
                    j <= label@.len(),
                    l@.len() == j,
                    offset == label_offset(ls, i as int),
                    offset + 1 + label@.len() <= limit,
                    limit == random@.len(),
                    forall|k: int| 0 <= k < j ==> l@[k] == randomized_octet(ls, random@, i as int, k),
                decreases label@.len() - j,
            {
                let b = label[j];
                let c = if random[offset + 1 + j] % 2 == 1 {
                    if 97 <= b && b <= 122 { b - 32 } else { b }
                } else {
                    if 65 <= b && b <= 90 { b + 32 } else { b }
                };
                l.push(c);
                j = j + 1;
            }
            offset = offset + 1 + label.len();
            out.push(l);
            i = i + 1;
        }
        proof {
            let rv = out@.map_values(|l: Vec<u8>| l@);
            assert forall|k: int| 0 <= k < ls.len() implies (#[trigger] rv[k]).len() == ls[k].len() by {
                assert(rv[k] == out@[k]@);
            }
            lemma_concat_same_lengths(rv, ls);
        }
        let r = Name { labels: out };
        assert forall|k: int| 0 <= k < ls.len() implies label_eq_ignore_case(#[trigger] r@[k], ls[k]) by {
            assert(r@[k] == out@[k]@);
            assert forall|j: int| 0 <= j < ls[k].len() implies lower(#[trigger] r@[k][j]) == lower(ls[k][j]) by {
                assert(r@[k][j] == randomized_octet(ls, random@, k, j));
            }
        }
        r
    }
}

} // verus!
