# xgb

Driving the [XGBoost](https://xgboost.ai) gradient boosting library from Rust, with the logic
around its C API verified in Verus. Made for XGBoost 3.4.1.

The C library itself is not verified and is never called from `src/`. An operation there is a
function that says which call comes next and, given the reply, what comes after it:

```rust
let mut reply = None;
let values = loop {
    match booster.predict(&dmat, reply) {
        Step::Perform(call) => reply = Some(make(call)),
        Step::Finish(result) => break result?,
    }
};
```

What is proved is what each operation asks for and what it makes of the replies: the texts that
are handed to C, the shapes of what comes back, the errors, and the course of a training run.

* `booster`, `prediction`, `shapes`, `training`, `attributes`, `dump` hold the operations.
* `train` is the step function of a whole training run, `course` what holds of every run.
* `evaluation` reads evaluation lines into tables (`scores`), `report` writes them; `reading` says
  what a table holds of a line.
* `feature_map`, `predict`, `array_interface`, `version` are the text formats; `text`,
  `number`, `ctext` and `cbuf` what they are built from.
* `call` lists the calls.

Numbers that are floats stay outside: predictions are generic, and scores are carried as text.

`app/` links the C library, makes the calls and runs the operations to their end. `tests/` runs
them against a stand-in.
