# ami-s3-archive

Archives EC2 machine images to S3 (`STANDARD_IA` by default) with `CreateStoreImageTask`.

The library under `src/` is written in Verus and verified. It decides and computes: it reads
arguments, profiles and replies, signs requests, and says step by step what a run does next. The
program under `app/` carries the steps out: it sends the requests, reads files and the environment,
asks the user and writes the log.

## Layout

```text
src/
  config.rs        arguments and their validation
  ini.rs           profile files
  credentials.rs   where the region and the credentials come from
  workflow.rs      a run, one step at a time
  history.rs       what holds of every run
  rollback.rs      how a failed run is undone
  aws/             requests, replies, signatures, retries, copies, waiting
  xml.rs           replies in XML
  error.rs         failures and how they are told
  text.rs          searching, trimming, splitting and joining text
  number.rs        reading and writing numbers
  outside.rs       calls into other crates, and what is taken on trust of each
app/               the program
tests/             tests of the library
```

Public proof functions whose names begin with `law_` state what holds of the library as a whole.

## Usage

```bash
ami-s3-archive \
  --ami-id ami-0123456789abcdef0 \
  --region eu-west-3 \
  --s3-uri s3://my-ami-archive-bucket \
  --create-bucket --cleanup --yes
```
