//! Method signatures and their canonical symbol form. A callable member is
//! identified by name, kind and arity together: a two-argument method named
//! `foo` encodes distinctly from the zero-argument getter `foo`, and an
//! initializer is a distinct kind from an ordinary method so it cannot be
//! invoked as one from outside its class's construction path. The canonical
//! symbol string is what method dispatch and duplicate-definition checks key
//! on.

use vstd::prelude::*;

verus! {

/// What kind of callable member a signature names.
#[derive(Clone, Copy, PartialEq, Eq, Structural, Debug)]
pub enum SignatureKind {
    /// A name with no parameter list.
    Getter,
    /// A name assigned to: `name=(_)`.
    Setter,
    /// An ordinary method with a parenthesized parameter list.
    Method,
    /// An indexed read: `name[...]`.
    SubscriptGetter,
    /// An indexed write: `name[...]=(_)`.
    SubscriptSetter,
    /// A constructor body; compiled so it implicitly returns the receiver.
    Initializer,
}

/// A callable member's signature: name, kind, and number of parameters.
pub struct Signature {
    pub name: Vec<char>,
    pub kind: SignatureKind,
    pub arity: usize,
}

/// The parameter list placeholder text for `n` parameters: `_`, `_,_`, and
/// so on; empty for none.
pub open spec fn params_list(n: nat) -> Seq<char>
    decreases n,
{
    if n == 0 {
        Seq::empty()
    } else if n == 1 {
        seq!['_']
    } else {
        params_list((n - 1) as nat) + seq![',', '_']
    }
}

/// The canonical symbol a signature dispatches under.
pub open spec fn signature_symbol_spec(name: Seq<char>, kind: SignatureKind, arity: nat) -> Seq<
    char,
> {
    match kind {
        SignatureKind::Getter => name,
        SignatureKind::Setter => name + seq!['=', '(', '_', ')'],
        SignatureKind::Method => name + seq!['('] + params_list(arity) + seq![')'],
        SignatureKind::SubscriptGetter => name + seq!['['] + params_list(arity) + seq![']'],
        SignatureKind::SubscriptSetter => name + seq!['['] + params_list(
            if arity == 0 {
                0
            } else {
                (arity - 1) as nat
            },
        ) + seq![']'] + seq!['=', '(', '_', ')'],
        SignatureKind::Initializer => seq!['i', 'n', 'i', 't', ' '] + name + seq!['(']
            + params_list(arity) + seq![')'],
    }
}

/// Appends the parameter placeholder list for `n` parameters onto `out`.
fn push_params(out: &mut Vec<char>, n: usize)
    ensures
        final(out)@ == old(out)@ + params_list(n as nat),
{
    let ghost base = out@;
    let mut k: usize = 0;
    while k < n
        invariant
            k <= n,
            out@ == base + params_list(k as nat),
        decreases n - k,
    {
        if k == 0 {
            out.push('_');
        } else {
            out.push(',');
            out.push('_');
        }
        k = k + 1;
        proof {
            if k == 1 {
                assert(out@ =~= base + params_list(1));
            } else {
                assert(params_list(k as nat) =~= params_list((k - 1) as nat) + seq![',', '_']);
                assert(out@ =~= base + params_list(k as nat));
            }
        }
    }
    proof {
        assert(out@ =~= base + params_list(n as nat));
    }
}

/// Appends every character of `src` onto `out`.
fn push_chars(out: &mut Vec<char>, src: &Vec<char>)
    ensures
        final(out)@ == old(out)@ + src@,
{
    let ghost base = out@;
    let n = src.len();
    let mut k: usize = 0;
    while k < n
        invariant
            k <= n,
            n == src@.len(),
            out@ == base + src@.subrange(0, k as int),
        decreases n - k,
    {
        out.push(src[k]);
        k = k + 1;
        proof {
            assert(out@ =~= base + src@.subrange(0, k as int));
        }
    }
    proof {
        assert(src@.subrange(0, n as int) =~= src@);
        assert(out@ =~= base + src@);
    }
}

impl Signature {
    /// Builds the canonical symbol string the signature dispatches under.
    pub fn to_symbol(&self) -> (r: Vec<char>)
        ensures
            r@ == signature_symbol_spec(self.name@, self.kind, self.arity as nat),
    {
        let mut out: Vec<char> = Vec::new();
        match self.kind {
            SignatureKind::Getter => {
                push_chars(&mut out, &self.name);
                proof {
                    assert(out@ =~= self.name@);
                }
            },
            SignatureKind::Setter => {
                push_chars(&mut out, &self.name);
                out.push('=');
                out.push('(');
                out.push('_');
                out.push(')');
                proof {
                    assert(out@ =~= self.name@ + seq!['=', '(', '_', ')']);
                }
            },
            SignatureKind::Method => {
                push_chars(&mut out, &self.name);
                out.push('(');
                proof {
                    assert(out@ =~= self.name@ + seq!['(']);
                }
                push_params(&mut out, self.arity);
                out.push(')');
                proof {
                    assert(out@ =~= self.name@ + seq!['('] + params_list(self.arity as nat)
                        + seq![')']);
                }
            },
            SignatureKind::SubscriptGetter => {
                push_chars(&mut out, &self.name);
                out.push('[');
                proof {
                    assert(out@ =~= self.name@ + seq!['[']);
                }
                push_params(&mut out, self.arity);
                out.push(']');
                proof {
                    assert(out@ =~= self.name@ + seq!['['] + params_list(self.arity as nat)
                        + seq![']']);
                }
            },
            SignatureKind::SubscriptSetter => {
                push_chars(&mut out, &self.name);
                out.push('[');
                proof {
                    assert(out@ =~= self.name@ + seq!['[']);
                }
                let inner = if self.arity > 0 {
                    self.arity - 1
                } else {
                    0
                };
                push_params(&mut out, inner);
                out.push(']');
                out.push('=');
                out.push('(');
                out.push('_');
                out.push(')');
                proof {
                    assert(out@ =~= self.name@ + seq!['['] + params_list(
                        if self.arity == 0 {
                            0
                        } else {
                            (self.arity - 1) as nat
                        },
                    ) + seq![']'] + seq!['=', '(', '_', ')']);
                }
            },
            SignatureKind::Initializer => {
                out.push('i');
                out.push('n');
                out.push('i');
                out.push('t');
                out.push(' ');
                proof {
                    assert(out@ =~= seq!['i', 'n', 'i', 't', ' ']);
                }
                push_chars(&mut out, &self.name);
                out.push('(');
                proof {
                    assert(out@ =~= seq!['i', 'n', 'i', 't', ' '] + self.name@ + seq!['(']);
                }
                push_params(&mut out, self.arity);
                out.push(')');
                proof {
                    assert(out@ =~= seq!['i', 'n', 'i', 't', ' '] + self.name@ + seq!['(']
                        + params_list(self.arity as nat) + seq![')']);
                }
            },
        }
        out
    }
}

} // verus!
