//! The Cray-1 instruction set as rules for the customasm assembler, and the text that the
//! assembler is run on. The run itself (customasm, from the command-line runner) is not
//! part of the library: customasm panics on some source texts (a bank of zero bits, an
//! address that overflows when scaled by the bank's unit, ...), and which texts those are
//! depends on the values its expressions evaluate to, so no contract could say on which
//! inputs the call returns.
use vstd::prelude::*;

verus! {

/// The Cray-1 instruction set as customasm rules: the addresses of a bank count 16-bit
/// parcels; each instruction is its 7-bit opcode followed by the i, j and k fields or by
/// a 22-bit word address (jk followed by the second parcel) or a 25-bit parcel address.
/// Register numbers are written as plain numbers.
pub const RULESET: &'static str = "\
#bankdef cray1 { #bits 16, #addr 0, #outp 0 }

#ruledef cray1
{
    err                                   => 0o000`7 @ 0`9
    exit                                  => 0o004`7 @ 0`9
    jb {n: u6}                            => 0o005`7 @ 0`3 @ n
    j {t: u25}                            => 0o006`7 @ t
    r {t: u25}                            => 0o007`7 @ t
    jaz {t: u25}                          => 0o010`7 @ t
    jan {t: u25}                          => 0o011`7 @ t
    jap {t: u25}                          => 0o012`7 @ t
    jam {t: u25}                          => 0o013`7 @ t
    jsz {t: u25}                          => 0o014`7 @ t
    jsn {t: u25}                          => 0o015`7 @ t
    jsp {t: u25}                          => 0o016`7 @ t
    jsm {t: u25}                          => 0o017`7 @ t
    vl {k: u3}                            => 0o020`7 @ 0`6 @ k
    ail {i: u3}, {c: u22}                 => 0o021`7 @ i @ c
    ai {i: u3}, {c: u6}                   => 0o022`7 @ i @ c
    ais {i: u3}, {j: u3}                  => 0o023`7 @ i @ j @ 0`3
    aib {i: u3}, {n: u6}                  => 0o024`7 @ i @ n
    bia {n: u6}, {i: u3}                  => 0o025`7 @ i @ n
    aadd {i: u3}, {j: u3}, {k: u3}        => 0o030`7 @ i @ j @ k
    asub {i: u3}, {j: u3}, {k: u3}        => 0o031`7 @ i @ j @ k
    amul {i: u3}, {j: u3}, {k: u3}        => 0o032`7 @ i @ j @ k
    vms {j: u3}                           => 0o033`7 @ 0`3 @ j @ 0`3
    vmz                                   => 0o034`7 @ 0`9
    sil {i: u3}, {c: u22}                 => 0o040`7 @ i @ c
    sz {i: u3}                            => 0o043`7 @ i @ 0`6
    sand {i: u3}, {j: u3}, {k: u3}        => 0o044`7 @ i @ j @ k
    sandn {i: u3}, {j: u3}, {k: u3}       => 0o045`7 @ i @ j @ k
    sxor {i: u3}, {j: u3}, {k: u3}        => 0o046`7 @ i @ j @ k
    seqv {i: u3}, {j: u3}, {k: u3}        => 0o047`7 @ i @ j @ k
    smerge {i: u3}, {j: u3}, {k: u3}      => 0o050`7 @ i @ j @ k
    ssign {i: u3}, {j: u3}                => 0o051`7 @ i @ j @ 0`3
    s0shl {i: u3}, {n: u6}                => 0o052`7 @ i @ n
    s0shr {i: u3}, {n: u6}                => 0o053`7 @ i @ n
    sshl {i: u3}, {n: u6}                 => 0o054`7 @ i @ n
    sshr {i: u3}, {n: u6}                 => 0o055`7 @ i @ n
    sdshl {i: u3}, {j: u3}, {k: u3}       => 0o056`7 @ i @ j @ k
    sdshr {i: u3}, {j: u3}, {k: u3}       => 0o057`7 @ i @ j @ k
    sadd {i: u3}, {j: u3}, {k: u3}        => 0o060`7 @ i @ j @ k
    ssub {i: u3}, {j: u3}, {k: u3}        => 0o061`7 @ i @ j @ k
    fadd {i: u3}, {j: u3}, {k: u3}        => 0o062`7 @ i @ j @ k
    fsub {i: u3}, {j: u3}, {k: u3}        => 0o063`7 @ i @ j @ k
    fmul {i: u3}, {j: u3}, {k: u3}        => 0o064`7 @ i @ j @ k
    fmulh {i: u3}, {j: u3}, {k: u3}       => 0o065`7 @ i @ j @ k
    fmulr {i: u3}, {j: u3}, {k: u3}       => 0o066`7 @ i @ j @ k
    fmul2 {i: u3}, {j: u3}, {k: u3}       => 0o067`7 @ i @ j @ k
    frecip {i: u3}, {j: u3}               => 0o070`7 @ i @ j @ 0`3
    sa {i: u3}, {k: u3}                   => 0o071`7 @ i @ 0`3 @ k
    sax {i: u3}, {k: u3}                  => 0o071`7 @ i @ 1`3 @ k
    saf {i: u3}, {k: u3}                  => 0o071`7 @ i @ 2`3 @ k
    svm {i: u3}                           => 0o073`7 @ i @ 0`6
    sit {i: u3}, {n: u6}                  => 0o074`7 @ i @ n
    tis {n: u6}, {i: u3}                  => 0o075`7 @ i @ n
    sv {i: u3}, {j: u3}, {k: u3}          => 0o076`7 @ i @ j @ k
    vs {i: u3}, {j: u3}, {k: u3}          => 0o077`7 @ i @ j @ k
    lda {i: u3}, {h: u3}, {a: u22}        => (0o100 + h)`7 @ i @ a
    sta {i: u3}, {h: u3}, {a: u22}        => (0o110 + h)`7 @ i @ a
    lds {i: u3}, {h: u3}, {a: u22}        => (0o120 + h)`7 @ i @ a
    sts {i: u3}, {h: u3}, {a: u22}        => (0o130 + h)`7 @ i @ a
    vands {i: u3}, {j: u3}, {k: u3}       => 0o140`7 @ i @ j @ k
    vand {i: u3}, {j: u3}, {k: u3}        => 0o141`7 @ i @ j @ k
    vors {i: u3}, {j: u3}, {k: u3}        => 0o142`7 @ i @ j @ k
    vor {i: u3}, {j: u3}, {k: u3}         => 0o143`7 @ i @ j @ k
    vxors {i: u3}, {j: u3}, {k: u3}       => 0o144`7 @ i @ j @ k
    vxor {i: u3}, {j: u3}, {k: u3}        => 0o145`7 @ i @ j @ k
    vmerges {i: u3}, {j: u3}, {k: u3}     => 0o146`7 @ i @ j @ k
    vmerge {i: u3}, {j: u3}, {k: u3}      => 0o147`7 @ i @ j @ k
    vshl {i: u3}, {j: u3}, {k: u3}        => 0o150`7 @ i @ j @ k
    vshr {i: u3}, {j: u3}, {k: u3}        => 0o151`7 @ i @ j @ k
    vrotl {i: u3}, {j: u3}, {k: u3}       => 0o152`7 @ i @ j @ k
    vrotr {i: u3}, {j: u3}, {k: u3}       => 0o153`7 @ i @ j @ k
    vadds {i: u3}, {j: u3}, {k: u3}       => 0o154`7 @ i @ j @ k
    vadd {i: u3}, {j: u3}, {k: u3}        => 0o155`7 @ i @ j @ k
    vsubs {i: u3}, {j: u3}, {k: u3}       => 0o156`7 @ i @ j @ k
    vsub {i: u3}, {j: u3}, {k: u3}        => 0o157`7 @ i @ j @ k
    vfmuls {i: u3}, {j: u3}, {k: u3}      => 0o160`7 @ i @ j @ k
    vfmul {i: u3}, {j: u3}, {k: u3}       => 0o161`7 @ i @ j @ k
    vfmul2s {i: u3}, {j: u3}, {k: u3}     => 0o166`7 @ i @ j @ k
    vfmul2 {i: u3}, {j: u3}, {k: u3}      => 0o167`7 @ i @ j @ k
    vfadds {i: u3}, {j: u3}, {k: u3}      => 0o170`7 @ i @ j @ k
    vfadd {i: u3}, {j: u3}, {k: u3}       => 0o171`7 @ i @ j @ k
    vfsubs {i: u3}, {j: u3}, {k: u3}      => 0o172`7 @ i @ j @ k
    vfsub {i: u3}, {j: u3}, {k: u3}       => 0o173`7 @ i @ j @ k
    vfrecip {i: u3}, {j: u3}              => 0o174`7 @ i @ j @ 0`3
    vmtest {j: u3}, {k: u3}               => 0o175`7 @ 0`3 @ j @ k
    vload {i: u3}, {k: u3}                => 0o176`7 @ i @ 0`3 @ k
    vstore {j: u3}, {k: u3}               => 0o177`7 @ 0`3 @ j @ k
}
";

/// The text handed to the assembler for Cray-1 source `src`: the ruleset, a line break,
/// then the source.
pub open spec fn assembler_input(src: Seq<char>) -> Seq<char> {
    RULESET@ + "\n"@ + src
}

/// The assembler's input for Cray-1 source code `src` (see `assembler_input`).
pub fn assembler_source(src: &str) -> (text: String)
    ensures
        text@ == assembler_input(src@),
{
    let mut text = String::from_str(RULESET);
    text.append("\n");
    text.append(src);
    text
}

} // verus!
