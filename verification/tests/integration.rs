use rio::go;
use rio::task::task_r;
use rio::task::task_r_w;
use rio::task::task_w;
use rio::Data;
use rio::ExecutorId;
use rio::Runtime;

fn add(a: &i32, b: &mut i32) {
    *b += *a;
}

fn double(a: &mut i32) {
    *a *= 2;
}

fn check_is_answer(a: &i32) {
    assert_eq!(*a, 42);
}

fn control_flow(mut rt: Runtime, args: (Data<i32>, Data<i32>)) {
    let (mut a, mut b) = args;

    task_r_w(&mut rt, add, &mut a, &mut b);
    task_w(&mut rt, double, &mut b);
    task_r(&mut rt, check_is_answer, &mut b);
}

#[test]
fn integration() {
    let map = move |task_id| ExecutorId::new((task_id as u32) % 2);
    let a = Data::new(1);
    let b = Data::new(20);
    go(2, map, (a, b), control_flow).expect("One of the workers panicked");
}
