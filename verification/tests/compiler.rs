//! End-to-end tests: whole source texts through `toycc::run`, with the
//! exact assembly text they must produce.

use toycc::run;

fn count(haystack: &str, needle: &str) -> usize {
    let mut n = 0;
    let mut rest = haystack;
    while let Some(i) = rest.find(needle) {
        n += 1;
        rest = &rest[i + needle.len()..];
    }
    n
}

#[test]
fn arithmetic_precedence_exact() {
    let out = run("{ return 1+2*3; }").unwrap();
    let expected = "  .globl main
main:
  push %rbp
  mov %rsp, %rbp
  sub $0, %rsp
  mov $3, %rax
  push %rax
  mov $2, %rax
  pop %rdi
  imul %rdi, %rax
  push %rax
  mov $1, %rax
  pop %rdi
  add %rdi, %rax
  jmp .L.return
.L.return:
  mov %rbp, %rsp
  pop %rbp
  ret\n";
    assert_eq!(out, expected);
}

#[test]
fn two_locals_frame_sixteen() {
    let out = run("{ a=3; b=5; return a+b; }").unwrap();
    let expected = "  .globl main
main:
  push %rbp
  mov %rsp, %rbp
  sub $16, %rsp
  lea -16(%rbp), %rax
  push %rax
  mov $3, %rax
  pop %rdi
  mov %rax, (%rdi)
  lea -8(%rbp), %rax
  push %rax
  mov $5, %rax
  pop %rdi
  mov %rax, (%rdi)
  lea -8(%rbp), %rax
  mov (%rax), %rax
  push %rax
  lea -16(%rbp), %rax
  mov (%rax), %rax
  pop %rdi
  add %rdi, %rax
  jmp .L.return
.L.return:
  mov %rbp, %rsp
  pop %rbp
  ret\n";
    assert_eq!(out, expected);
}

#[test]
fn while_loop_one_label_pair() {
    let out = run("{ x=0; while(x<5) x=x+1; return x; }").unwrap();
    let expected = "  .globl main
main:
  push %rbp
  mov %rsp, %rbp
  sub $16, %rsp
  lea -8(%rbp), %rax
  push %rax
  mov $0, %rax
  pop %rdi
  mov %rax, (%rdi)
.L.begin.1:
  mov $5, %rax
  push %rax
  lea -8(%rbp), %rax
  mov (%rax), %rax
  pop %rdi
  cmp %rdi, %rax
  setl %al
  movzb %al, %rax
  cmp $0, %rax
  je .L.end.1
  lea -8(%rbp), %rax
  push %rax
  mov $1, %rax
  push %rax
  lea -8(%rbp), %rax
  mov (%rax), %rax
  pop %rdi
  add %rdi, %rax
  pop %rdi
  mov %rax, (%rdi)
  jmp .L.begin.1
.L.end.1:
  lea -8(%rbp), %rax
  mov (%rax), %rax
  jmp .L.return
.L.return:
  mov %rbp, %rsp
  pop %rbp
  ret\n";
    assert_eq!(out, expected);
    assert_eq!(count(&out, ".L.begin.1:"), 1);
    assert_eq!(count(&out, ".L.end.1:"), 1);
}

#[test]
fn if_else_takes_else_branch() {
    let out = run("{ if (0) return 1; else return 2; }").unwrap();
    let expected = "  .globl main
main:
  push %rbp
  mov %rsp, %rbp
  sub $0, %rsp
  mov $0, %rax
  cmp $0, %rax
  je .L.else.1
  mov $1, %rax
  jmp .L.return
  jmp .L.end.1
.L.else.1:
  mov $2, %rax
  jmp .L.return
.L.end.1:
.L.return:
  mov %rbp, %rsp
  pop %rbp
  ret\n";
    assert_eq!(out, expected);
}

#[test]
fn address_of_round_trip() {
    let out = run("{ x=3; y=&x; return *y; }").unwrap();
    let expected = "  .globl main
main:
  push %rbp
  mov %rsp, %rbp
  sub $16, %rsp
  lea -16(%rbp), %rax
  push %rax
  mov $3, %rax
  pop %rdi
  mov %rax, (%rdi)
  lea -8(%rbp), %rax
  push %rax
  lea -16(%rbp), %rax
  pop %rdi
  mov %rax, (%rdi)
  lea -8(%rbp), %rax
  mov (%rax), %rax
  mov (%rax), %rax
  jmp .L.return
.L.return:
  mov %rbp, %rsp
  pop %rbp
  ret\n";
    assert_eq!(out, expected);
}

#[test]
fn for_loop_empty_body() {
    let out = run("{ for (i=0; i<3; i=i+1) ; return i; }").unwrap();
    let expected = "  .globl main
main:
  push %rbp
  mov %rsp, %rbp
  sub $16, %rsp
  lea -8(%rbp), %rax
  push %rax
  mov $0, %rax
  pop %rdi
  mov %rax, (%rdi)
.L.begin.1:
  mov $3, %rax
  push %rax
  lea -8(%rbp), %rax
  mov (%rax), %rax
  pop %rdi
  cmp %rdi, %rax
  setl %al
  movzb %al, %rax
  cmp $0, %rax
  je .L.end.1
  lea -8(%rbp), %rax
  push %rax
  mov $1, %rax
  push %rax
  lea -8(%rbp), %rax
  mov (%rax), %rax
  pop %rdi
  add %rdi, %rax
  pop %rdi
  mov %rax, (%rdi)
  jmp .L.begin.1
.L.end.1:
  lea -8(%rbp), %rax
  mov (%rax), %rax
  jmp .L.return
.L.return:
  mov %rbp, %rsp
  pop %rbp
  ret\n";
    assert_eq!(out, expected);
}

#[test]
fn same_source_compiles_identically() {
    let src = "{ a=1; while(a<9) a=a+2; if (a) return a; else return 0; }";
    let first = run(src).unwrap();
    let second = run(src).unwrap();
    assert_eq!(first, second);
}

#[test]
fn empty_body_minimal_skeleton() {
    let out = run("{ }").unwrap();
    let expected = "  .globl main
main:
  push %rbp
  mov %rsp, %rbp
  sub $0, %rsp
.L.return:
  mov %rbp, %rsp
  pop %rbp
  ret\n";
    assert_eq!(out, expected);
}

#[test]
fn bare_semicolons_compile_to_nothing() {
    let plain = run("{ }").unwrap();
    let semis = run("{ ;;; }").unwrap();
    assert_eq!(plain, semis);
}

#[test]
fn frame_grows_in_sixteens() {
    let one = run("{ a=1; return a; }").unwrap();
    assert!(one.contains("  sub $16, %rsp\n"));
    let three = run("{ a=1; b=2; c=3; return c; }").unwrap();
    assert!(three.contains("  sub $32, %rsp\n"));
    let five = run("{ a=1; b=2; c=3; d=4; e=5; return e; }").unwrap();
    assert!(five.contains("  sub $48, %rsp\n"));
}

#[test]
fn same_name_same_slot() {
    let out = run("{ a=1; b=2; a=3; return a; }").unwrap();
    // Both writes to `a` address the same slot, the read too; `b` gets
    // its own slot and never shares an offset with `a`.
    assert_eq!(count(&out, "  lea -16(%rbp), %rax\n"), 3);
    assert_eq!(count(&out, "  lea -8(%rbp), %rax\n"), 1);
}

#[test]
fn right_operand_effects_come_first() {
    let out = run("{ x=0; x=(x=1)+(x=2); return x; }").unwrap();
    // The right operand of `+` is emitted (and so takes effect) before
    // the left one.
    let right = out.find("  mov $2, %rax").unwrap();
    let left = out.find("  mov $1, %rax").unwrap();
    assert!(right < left);
}

#[test]
fn labels_never_collide() {
    let out = run("{ x=0; while(x<1) x=1; while(x<2) x=2; if(x) ; return x; }").unwrap();
    assert_eq!(count(&out, ".L.begin.1:"), 1);
    assert_eq!(count(&out, ".L.begin.2:"), 1);
    assert_eq!(count(&out, ".L.end.1:"), 1);
    assert_eq!(count(&out, ".L.end.2:"), 1);
    assert_eq!(count(&out, ".L.else.3:"), 1);
    assert_eq!(count(&out, ".L.end.3:"), 1);
    assert_eq!(count(&out, ".L.begin.3:"), 0);
    // Every conditional jump target is defined exactly once.
    assert_eq!(count(&out, "  je .L.end.1\n"), 1);
    assert_eq!(count(&out, "  je .L.end.2\n"), 1);
    assert_eq!(count(&out, "  je .L.else.3\n"), 1);
}

#[test]
fn nested_loops_get_fresh_labels() {
    let out = run("{ i=0; for (; i<2; i=i+1) { j=0; while (j<2) j=j+1; } return i; }").unwrap();
    assert_eq!(count(&out, ".L.begin.1:"), 1);
    assert_eq!(count(&out, ".L.begin.2:"), 1);
    assert_eq!(count(&out, ".L.end.1:"), 1);
    assert_eq!(count(&out, ".L.end.2:"), 1);
}

#[test]
fn division_lowering() {
    let out = run("{ return 6/2; }").unwrap();
    assert!(out.contains("  cqo\n  idiv %rdi\n"));
}

#[test]
fn comparison_lowering() {
    let out = run("{ return 1==2; }").unwrap();
    assert!(out.contains("  cmp %rdi, %rax\n  sete %al\n  movzb %al, %rax\n"));
    let out = run("{ return 1!=2; }").unwrap();
    assert!(out.contains("  setne %al\n"));
    let out = run("{ return 1<=2; }").unwrap();
    assert!(out.contains("  setle %al\n"));
    let out = run("{ return 1>=2; }").unwrap();
    assert!(out.contains("  setge %al\n"));
    let out = run("{ return 1>2; }").unwrap();
    assert!(out.contains("  setg %al\n"));
}

#[test]
fn unary_lowering() {
    let out = run("{ return -5; }").unwrap();
    assert!(out.contains("  mov $5, %rax\n  neg %rax\n"));
    let plus = run("{ return +5; }").unwrap();
    assert!(plus.contains("  mov $5, %rax\n"));
    assert!(!plus.contains("  neg %rax\n"));
}

#[test]
fn parentheses_override_precedence() {
    let out = run("{ return (1+2)*3; }").unwrap();
    // The multiply happens last: its right operand is 3, its left the sum.
    let expected_tail = "  mov $3, %rax
  push %rax
  mov $2, %rax
  push %rax
  mov $1, %rax
  pop %rdi
  add %rdi, %rax
  pop %rdi
  imul %rdi, %rax\n";
    assert!(out.contains(expected_tail));
}

#[test]
fn assignment_is_right_associative() {
    // a=b=1 assigns through b first, then a.
    let out = run("{ a=b=1; return a; }").unwrap();
    let inner = out.find("  lea -8(%rbp), %rax").unwrap();
    let outer = out.find("  lea -16(%rbp), %rax").unwrap();
    assert!(outer < inner);
    assert_eq!(count(&out, "  mov %rax, (%rdi)\n"), 2);
}

#[test]
fn lexical_error_is_fatal() {
    assert!(run("{ return 1 @ 2; }").is_err());
    assert!(run("@").is_err());
}

#[test]
fn structural_mismatch_is_fatal() {
    assert!(run("").is_err());
    assert!(run("return 1;").is_err());
    assert!(run("{ return 1 }").is_err());
    assert!(run("{ return 1; ").is_err());
    assert!(run("{ (1+2; }").is_err());
    assert!(run("{ x = ; }").is_err());
    assert!(run("{ if 1 return 2; }").is_err());
    assert!(run("{ while () x=1; }").is_err());
}

#[test]
fn semantic_misuse_is_fatal() {
    // Taking the address of a non-identifier.
    assert!(run("{ return &(1+2); }").is_err());
    assert!(run("{ return &5; }").is_err());
    // Assigning through a non-lvalue.
    assert!(run("{ 1 = 2; }").is_err());
    assert!(run("{ *x = 2; }").is_err());
}

#[test]
fn oversized_literal_is_fatal() {
    assert!(run("{ return 99999999999999999999999999999; }").is_err());
}

#[test]
fn trailing_garbage_is_fatal() {
    assert!(run("{ return 1; } x").is_err());
}
